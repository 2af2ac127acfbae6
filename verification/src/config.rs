//! Settings: plain ones and secrets, for everything and for a project.

use crate::codec::{
    drawn, kept, law_changed_documents_are_kept, law_documents_that_were_read_are_kept, read_toml,
    shaped, toml_text, toml_value, write_toml,
};
use crate::command::Output;
use crate::project::{git_root, join_path, path_in, root_in, shellops_home, ProjectError};
use crate::text::{
    before, extend, glue, has_prefix, law_parts_end_at_separators, same, split, split_on,
    starts_with, trim, trimmed, view_opt, views,
};
use crate::tree::{
    as_table, ascends, assign, assigned, child, collect_keys, dig, dug, entry_lists,
    law_assigned_values_are_found, law_other_values_stay, lemma_dug_further, lists, parts_ways,
    said_opt, shown, value_string, Tree, TreeView,
};
use vstd::prelude::*;

verus! {

/// Where a setting comes from.
#[derive(Debug, Clone, Copy, PartialEq, Eq, Structural)]
pub enum Scope {
    Project,
    Global,
    Inferred,
}

/// Whether a setting may be shown.
#[derive(Debug, Clone, Copy, PartialEq, Eq, Structural)]
pub enum Visibility {
    Plain,
    Secret,
}

/// A setting.
#[derive(Debug, Clone, PartialEq, Eq)]
pub struct Hit {
    pub value: String,
    pub scope: Scope,
    pub visibility: Visibility,
}

/// What a setting says.
pub struct HitView {
    pub value: Seq<char>,
    pub scope: Scope,
    pub visibility: Visibility,
}

impl View for Hit {
    type V = HitView;

    open spec fn view(&self) -> HitView {
        HitView { value: self.value@, scope: self.scope, visibility: self.visibility }
    }
}

/// A setting that may be there.
pub open spec fn hit_opt(hit: Option<Hit>) -> Option<HitView> {
    match hit {
        Some(hit) => Some(hit@),
        None => None,
    }
}

/// Why settings are not read or written.
#[derive(Debug)]
pub enum ConfigError {
    /// The file that is no TOML document.
    Unreadable { path: String, cause: toml::de::Error },
    InvalidKey(String),
    /// The key of the projects.
    Reserved,
    NotSet(String),
    /// A secret that is not to be shown.
    Secret(String),
    /// A file that is a TOML document, but no table.
    NoTable,
}

impl ConfigError {
    /// What the error says.
    pub open spec fn says(self) -> Seq<char> {
        match self {
            ConfigError::Unreadable { path, .. } => "could not parse "@ + path@,
            ConfigError::InvalidKey(key) => "invalid config key "@ + key@,
            ConfigError::Reserved => "config key project is reserved"@,
            ConfigError::NotSet(key) => "config key "@ + key@ + " is not set"@,
            ConfigError::Secret(key) => "refusing to print secret "@ + key@,
            ConfigError::NoTable => "config root must be a table"@,
        }
    }

    /// What the error says.
    pub fn message(&self) -> (r: String)
        ensures
            r@ == self.says(),
    {
        match self {
            ConfigError::Unreadable { path, .. } => glue("could not parse ", path.as_str()),
            ConfigError::InvalidKey(key) => glue("invalid config key ", key.as_str()),
            ConfigError::Reserved => "config key project is reserved".to_string(),
            ConfigError::NotSet(key) => {
                glue(glue("config key ", key.as_str()).as_str(), " is not set")
            },
            ConfigError::Secret(key) => glue("refusing to print secret ", key.as_str()),
            ConfigError::NoTable => "config root must be a table".to_string(),
        }
    }
}

/// The value that is shown of a setting: a secret stays hidden.
pub fn display_value(hit: &Hit) -> (r: String)
    ensures
        r@ == if hit.visibility == Visibility::Secret {
            "********"@
        } else {
            hit.value@
        },
{
    match hit.visibility {
        Visibility::Secret => "********".to_string(),
        Visibility::Plain => hit.value.clone(),
    }
}

/// The value of a key that nobody set.
pub open spec fn inferred_of(key: Seq<char>) -> Option<Seq<char>> {
    if key == "openrouter.model"@ {
        Some("openai/gpt-4o-mini"@)
    } else {
        None
    }
}

/// The value of a key that nobody set.
pub fn inferred_default(key: &str) -> (r: Option<String>)
    ensures
        view_opt(r) == inferred_of(key@),
{
    if same(key, "openrouter.model") {
        Some("openai/gpt-4o-mini".to_string())
    } else {
        None
    }
}

/// The project that settings are kept for: the root of the repository.
pub fn project_key(answer: &Output) -> (r: Result<String, ProjectError>)
    ensures
        match root_in(*answer) {
            Ok(root) => r matches Ok(text) && text@ == root,
            Err(said) => r matches Err(ProjectError::NoRepository(text)) && text@ == said,
        },
{
    git_root(answer)
}

// Keys.

/// The names on the way to a setting.
pub open spec fn parts_of(key: Seq<char>) -> Seq<Seq<char>> {
    split_on(key, '.')
}

/// A key with a name before, between and behind all its dots.
pub open spec fn is_key(key: Seq<char>) -> bool {
    forall|i: int| 0 <= i < parts_of(key).len() ==> (#[trigger] parts_of(key)[i]).len() > 0
}

/// The key of the projects, or one below it.
pub open spec fn is_reserved(key: Seq<char>) -> bool {
    key == "project"@ || has_prefix(key, "project."@)
}

/// Whether settings can be written under a key.
pub fn validate_key(key: &str) -> (r: Result<(), ConfigError>)
    ensures
        if !is_key(key@) {
            r matches Err(ConfigError::InvalidKey(text)) && text@ == key@
        } else if is_reserved(key@) {
            r matches Err(ConfigError::Reserved)
        } else {
            r is Ok
        },
{
    let parts = split(key, '.');
    let n: usize = parts.len();
    let ghost all = parts_of(key@);
    for i in 0..n
        invariant
            n == parts@.len(),
            all == parts_of(key@),
            views(parts@) == all,
            forall|j: int| 0 <= j < i ==> (#[trigger] all[j]).len() > 0,
    {
        assert(all[i as int] == parts@[i as int]@);
        if parts[i].as_str().is_empty() {
            return Err(ConfigError::InvalidKey(key.to_string()));
        }
    }
    if same(key, "project") || starts_with(key, "project.") {
        return Err(ConfigError::Reserved);
    }
    Ok(())
}

/// The names on the way to a setting in a file: those of a project are kept under its name.
pub open spec fn path_of(key: Seq<char>, project: Option<Seq<char>>) -> Seq<Seq<char>> {
    match project {
        Some(name) => seq!["project"@, name] + parts_of(key),
        None => parts_of(key),
    }
}

fn path_to(key: &str, project: Option<&str>) -> (r: Vec<String>)
    ensures
        views(r@) == path_of(key@, str_opt(project)),
{
    let mut path: Vec<String> = Vec::new();
    if let Some(name) = project {
        path.push("project".to_string());
        path.push(name.to_string());
        assert(views(path@) =~= seq!["project"@, name@]);
    }
    let parts = split(key, '.');
    extend(&mut path, parts.as_slice());
    assert(views(path@) =~= path_of(key@, str_opt(project)));
    path
}

/// A text that may be there.
pub open spec fn str_opt(text: Option<&str>) -> Option<Seq<char>> {
    match text {
        Some(text) => Some(text@),
        None => None,
    }
}

// Files.

/// What a file of settings holds: nothing where it is missing or blank.
pub open spec fn file_tree(text: Option<Seq<char>>) -> Option<TreeView> {
    match text {
        None => Some(TreeView::Table(Map::empty())),
        Some(text) => if trimmed(text).len() == 0 {
            Some(TreeView::Table(Map::empty()))
        } else {
            toml_value(text)
        },
    }
}

fn read_value(text: &Option<String>, path: &str) -> (r: Result<Tree, ConfigError>)
    ensures
        match file_tree(view_opt(*text)) {
            Some(tree) => r matches Ok(value) && value@ == tree,
            None => r matches Err(ConfigError::Unreadable { path: p, .. }) && p@ == path@,
        },
{
    match text {
        None => Ok(Tree::Table(Vec::new())),
        Some(text) => {
            if trim(text.as_str()).as_str().is_empty() {
                return Ok(Tree::Table(Vec::new()));
            }
            match read_toml(text.as_str()) {
                Ok(tree) => Ok(tree),
                Err(cause) => Err(ConfigError::Unreadable { path: path.to_string(), cause }),
            }
        },
    }
}

/// What a file says that holds a value.
pub open spec fn file_text(tree: TreeView) -> Seq<char> {
    match toml_text(tree) {
        Some(text) => text,
        None => ""@,
    }
}

// Looking up.

/// The value of a key in a table, in writing.
pub open spec fn value_in(tree: Option<TreeView>, key: Seq<char>) -> Option<Seq<char>> {
    match tree {
        None => None,
        Some(tree) => match dug(tree, parts_of(key)) {
            Some(value) => shown(value),
            None => None,
        },
    }
}

/// The setting of a key in one layer: a secret comes before a plain one.
pub open spec fn layer_of(
    secrets: Option<TreeView>,
    config: Option<TreeView>,
    key: Seq<char>,
    scope: Scope,
) -> Option<HitView> {
    match value_in(secrets, key) {
        Some(value) => Some(HitView { value, scope, visibility: Visibility::Secret }),
        None => match value_in(config, key) {
            Some(value) => Some(HitView { value, scope, visibility: Visibility::Plain }),
            None => None,
        },
    }
}

/// The settings of a project in a file.
pub open spec fn project_tree(root: TreeView, name: Seq<char>) -> Option<TreeView> {
    dug(root, seq!["project"@, name])
}

/// The setting of a key: that of the project comes before the global one, and that before the
/// inferred one.
pub open spec fn found_in(
    secrets: TreeView,
    config: TreeView,
    key: Seq<char>,
    project: Option<Seq<char>>,
    inferred: Option<Seq<char>>,
) -> Option<HitView> {
    let own = match project {
        Some(name) => layer_of(
            project_tree(secrets, name),
            project_tree(config, name),
            key,
            Scope::Project,
        ),
        None => None,
    };
    let global = layer_of(Some(secrets), Some(config), key, Scope::Global);
    if own is Some {
        own
    } else if global is Some {
        global
    } else {
        match inferred {
            Some(value) => Some(
                HitView { value, scope: Scope::Inferred, visibility: Visibility::Plain },
            ),
            None => None,
        }
    }
}

fn value_of(tree: Option<&Tree>, key: &str) -> (r: Option<String>)
    ensures
        view_opt(r) == value_in(said_opt(tree), key@),
{
    match tree {
        None => None,
        Some(tree) => match dig(tree, split(key, '.').as_slice()) {
            Some(value) => value_string(value),
            None => None,
        },
    }
}

fn layer(secrets: Option<&Tree>, config: Option<&Tree>, key: &str, scope: Scope) -> (r: Option<
    Hit,
>)
    ensures
        hit_opt(r) == layer_of(said_opt(secrets), said_opt(config), key@, scope),
{
    if let Some(value) = value_of(secrets, key) {
        return Some(Hit { value, scope, visibility: Visibility::Secret });
    }
    match value_of(config, key) {
        Some(value) => Some(Hit { value, scope, visibility: Visibility::Plain }),
        None => None,
    }
}

fn project_table<'a>(root: &'a Tree, project: &str) -> (r: Option<&'a Tree>)
    ensures
        said_opt(r) == project_tree(root@, project@),
{
    let path = vec!["project".to_string(), project.to_string()];
    assert(views(path@) =~= seq!["project"@, project@]);
    dig(root, path.as_slice())
}

fn find(
    secrets: &Tree,
    config: &Tree,
    key: &str,
    project: Option<&str>,
    inferred: Option<String>,
) -> (r: Option<Hit>)
    ensures
        hit_opt(r) == found_in(secrets@, config@, key@, str_opt(project), view_opt(inferred)),
{
    if let Some(name) = project {
        let own = layer(
            project_table(secrets, name),
            project_table(config, name),
            key,
            Scope::Project,
        );
        if let Some(hit) = own {
            return Some(hit);
        }
    }
    if let Some(hit) = layer(Some(secrets), Some(config), key, Scope::Global) {
        return Some(hit);
    }
    match inferred {
        Some(value) => Some(
            Hit { value, scope: Scope::Inferred, visibility: Visibility::Plain },
        ),
        None => None,
    }
}

// Writing.

/// Whether settings of a project have a place in a file: what stands there is a table.
pub open spec fn has_place(tree: TreeView, project: Option<Seq<char>>) -> bool {
    match project {
        None => true,
        Some(name) => {
            &&& tree is Table
            &&& child(tree, "project"@) matches Some(projects) ==> projects is Table
            &&& project_tree(tree, name) matches Some(own) ==> own is Table
        },
    }
}

/// Whether settings of a project have a place in the text of a file, where it can be read.
pub open spec fn text_has_place(text: Option<Seq<char>>, project: Option<Seq<char>>) -> bool {
    file_tree(text) matches Some(tree) ==> has_place(tree, project)
}

/// What a file holds after a value was put in, or taken out.
pub open spec fn changed(
    tree: TreeView,
    key: Seq<char>,
    project: Option<Seq<char>>,
    value: Option<Seq<char>>,
) -> TreeView {
    TreeView::Table(assigned(as_table(Some(tree)), path_of(key, project), value))
}

/// What a file says after a value was put in, or taken out: a missing file is only made for a
/// value. What is kept by the format can be read back, and nothing is read back under a name that
/// was not written.
pub open spec fn rewritten(
    text: Option<Seq<char>>,
    tree: TreeView,
    value: Option<Seq<char>>,
    new: Option<Seq<char>>,
) -> bool {
    if text is Some || value is Some {
        &&& new == Some(file_text(tree))
        &&& kept(tree) ==> file_tree(new) == Some(tree)
        &&& file_tree(new) matches Some(back) ==> drawn(back, tree)
    } else {
        new is None
    }
}

fn is_table(tree: Option<&Tree>) -> (r: bool)
    ensures
        r == (said_opt(tree) matches Some(value) ==> value is Table),
{
    match tree {
        None => true,
        Some(Tree::Table(_)) => true,
        Some(_) => false,
    }
}

fn place_in(tree: &Tree, project: Option<&str>) -> (r: bool)
    ensures
        r == has_place(tree@, str_opt(project)),
{
    match project {
        None => true,
        Some(name) => is_table(Some(tree)) && is_table(tree.get("project")) && is_table(
            project_table(tree, name),
        ),
    }
}

fn place_in_text(text: &Option<String>, project: Option<&str>) -> (r: bool)
    ensures
        r == text_has_place(view_opt(*text), str_opt(project)),
{
    match read_value(text, "") {
        Ok(tree) => place_in(&tree, project),
        Err(_) => true,
    }
}

fn write_key(
    text: &Option<String>,
    path: &str,
    key: &str,
    value: Option<String>,
    project: Option<&str>,
) -> (r: Result<Option<String>, ConfigError>)
    ensures
        match file_tree(view_opt(*text)) {
            None => r matches Err(ConfigError::Unreadable { path: p, .. }) && p@ == path@,
            Some(tree) => if tree is Table {
                r matches Ok(new) && rewritten(
                    view_opt(*text),
                    changed(tree, key@, str_opt(project), view_opt(value)),
                    view_opt(value),
                    view_opt(new),
                )
            } else {
                r matches Err(ConfigError::NoTable)
            },
        },
{
    let tree = match read_value(text, path) {
        Ok(tree) => tree,
        Err(error) => {
            return Err(error);
        },
    };
    let table = match tree {
        Tree::Table(table) => table,
        _ => {
            return Err(ConfigError::NoTable);
        },
    };
    let has_value = value.is_some();
    let root = Tree::Table(assign(table, path_to(key, project).as_slice(), value));
    if !has_value && text.is_none() {
        return Ok(None);
    }
    proof {
        reveal_strlit("");
        assert(trimmed(""@).len() == 0);
    }
    match write_toml(&root) {
        Ok(body) => Ok(Some(body)),
        Err(_) => Ok(Some("".to_string())),
    }
}

/// The settings, as the two files in a directory hold them.
#[derive(Debug, Clone)]
pub struct Store {
    pub dir: String,
    /// What `config.toml` says, where there is such a file.
    pub config: Option<String>,
    /// What `secrets.toml` says, where there is such a file.
    pub secrets: Option<String>,
}

impl Store {
    /// The path of a file of settings.
    pub open spec fn file(self, secret: bool) -> Seq<char> {
        path_in(
            self.dir@,
            if secret {
                "secrets.toml"@
            } else {
                "config.toml"@
            },
        )
    }

    /// What a file of settings says.
    pub open spec fn says(self, secret: bool) -> Option<Seq<char>> {
        if secret {
            view_opt(self.secrets)
        } else {
            view_opt(self.config)
        }
    }

    /// What a file of settings holds.
    pub open spec fn tree(self, secret: bool) -> Option<TreeView> {
        file_tree(self.says(secret))
    }

    /// The setting of a key, where both files can be read.
    pub open spec fn found(
        self,
        key: Seq<char>,
        project: Option<Seq<char>>,
        inferred: Option<Seq<char>>,
    ) -> Option<Option<HitView>> {
        match (self.tree(false), self.tree(true)) {
            (Some(config), Some(secrets)) => Some(
                found_in(secrets, config, key, project, inferred),
            ),
            _ => None,
        }
    }

    /// The error where a file cannot be read: the plain one is read first.
    pub open spec fn unreadable(self, error: ConfigError) -> bool {
        error matches ConfigError::Unreadable { path, .. } && path@ == self.file(
            self.tree(false) is Some,
        )
    }

    /// The settings of a user.
    pub fn open(home: &str, config: Option<String>, secrets: Option<String>) -> (r: Self)
        ensures
            r.dir@ == path_in(home@, ".shellops"@),
            view_opt(r.config) == view_opt(config),
            view_opt(r.secrets) == view_opt(secrets),
    {
        Store { dir: shellops_home(home), config, secrets }
    }

    /// The settings in a directory.
    pub fn at(dir: String, config: Option<String>, secrets: Option<String>) -> (r: Self)
        ensures
            r == (Store { dir, config, secrets }),
    {
        Store { dir, config, secrets }
    }

    fn file_path(&self, secret: bool) -> (r: String)
        ensures
            r@ == self.file(secret),
    {
        if secret {
            join_path(self.dir.as_str(), "secrets.toml")
        } else {
            join_path(self.dir.as_str(), "config.toml")
        }
    }

    fn read_both(&self) -> (r: Result<(Tree, Tree), ConfigError>)
        ensures
            match (self.tree(false), self.tree(true)) {
                (Some(config), Some(secrets)) => r matches Ok(trees) && trees.0@ == config
                    && trees.1@ == secrets,
                _ => r matches Err(error) && self.unreadable(error),
            },
    {
        match read_value(&self.config, self.file_path(false).as_str()) {
            Err(error) => Err(error),
            Ok(config) => match read_value(&self.secrets, self.file_path(true).as_str()) {
                Err(error) => Err(error),
                Ok(secrets) => Ok((config, secrets)),
            },
        }
    }

    /// The setting of a key, or the given one where nobody set it.
    pub fn lookup_with(
        &self,
        key: &str,
        project: Option<&str>,
        inferred: Option<String>,
    ) -> (r: Result<Option<Hit>, ConfigError>)
        ensures
            match self.found(key@, str_opt(project), view_opt(inferred)) {
                Some(found) => r matches Ok(hit) && hit_opt(hit) == found,
                None => r matches Err(error) && self.unreadable(error),
            },
    {
        match self.read_both() {
            Err(error) => Err(error),
            Ok((config, secrets)) => Ok(find(&secrets, &config, key, project, inferred)),
        }
    }

    /// The setting of a key, or what is inferred where nobody set it.
    pub fn lookup(&self, key: &str, project: Option<&str>) -> (r: Result<
        Option<Hit>,
        ConfigError,
    >)
        ensures
            match self.found(key@, str_opt(project), inferred_of(key@)) {
                Some(found) => r matches Ok(hit) && hit_opt(hit) == found,
                None => r matches Err(error) && self.unreadable(error),
            },
    {
        self.lookup_with(key, project, inferred_default(key))
    }

    /// A setting to show: a secret is refused.
    pub fn get(&self, key: &str, project: Option<&str>) -> (r: Result<Hit, ConfigError>)
        ensures
            match self.found(key@, str_opt(project), inferred_of(key@)) {
                None => r matches Err(error) && self.unreadable(error),
                Some(None) => r matches Err(ConfigError::NotSet(text)) && text@ == key@,
                Some(Some(found)) => if found.visibility == Visibility::Secret {
                    r matches Err(ConfigError::Secret(text)) && text@ == key@
                } else {
                    r matches Ok(hit) && hit@ == found
                },
            },
    {
        match self.lookup(key, project) {
            Err(error) => Err(error),
            Ok(None) => Err(ConfigError::NotSet(key.to_string())),
            Ok(Some(hit)) => match hit.visibility {
                Visibility::Secret => Err(ConfigError::Secret(key.to_string())),
                Visibility::Plain => Ok(hit),
            },
        }
    }

    fn write(
        &mut self,
        secret: bool,
        key: &str,
        value: Option<String>,
        project: Option<&str>,
    ) -> (r: Result<(), ConfigError>)
        ensures
            final(self).dir@ == old(self).dir@,
            final(self).says(!secret) == old(self).says(!secret),
            match old(self).tree(secret) {
                None => final(self).says(secret) == old(self).says(secret) && (r matches Err(
                    ConfigError::Unreadable { path, .. },
                ) && path@ == old(self).file(secret)),
                Some(tree) => if tree is Table {
                    r is Ok && rewritten(
                        old(self).says(secret),
                        changed(tree, key@, str_opt(project), view_opt(value)),
                        view_opt(value),
                        final(self).says(secret),
                    )
                } else {
                    final(self).says(secret) == old(self).says(secret) && (r matches Err(
                        ConfigError::NoTable,
                    ))
                },
            },
    {
        let path = self.file_path(secret);
        let new = if secret {
            write_key(&self.secrets, path.as_str(), key, value, project)
        } else {
            write_key(&self.config, path.as_str(), key, value, project)
        };
        match new {
            Err(error) => Err(error),
            Ok(text) => {
                if secret {
                    self.secrets = text;
                } else {
                    self.config = text;
                }
                Ok(())
            },
        }
    }

    /// Whether the files can be written one after the other: what stands in the place of the
    /// project's settings is a table.
    pub open spec fn can_write(self, first: bool, project: Option<Seq<char>>) -> bool {
        &&& text_has_place(self.says(first), project)
        &&& self.tree(first) is Some ==> text_has_place(self.says(!first), project)
    }

    /// What becomes of the files where a value is put into one and taken out of the other, in
    /// that order: a file that cannot be written keeps what it says, and those behind it too.
    pub open spec fn writes(
        self,
        new: Store,
        first: bool,
        key: Seq<char>,
        project: Option<Seq<char>>,
        value: Option<Seq<char>>,
        r: Result<(), ConfigError>,
    ) -> bool {
        &&& new.dir@ == self.dir@
        &&& match self.tree(first) {
            Some(TreeView::Table(table)) => {
                &&& rewritten(
                    self.says(first),
                    changed(TreeView::Table(table), key, project, value),
                    value,
                    new.says(first),
                )
                &&& match self.tree(!first) {
                    Some(TreeView::Table(other)) => r is Ok && rewritten(
                        self.says(!first),
                        changed(TreeView::Table(other), key, project, None),
                        None,
                        new.says(!first),
                    ),
                    Some(_) => new.says(!first) == self.says(!first) && (r matches Err(
                        ConfigError::NoTable,
                    )),
                    None => new.says(!first) == self.says(!first) && (r matches Err(
                        ConfigError::Unreadable { path, .. },
                    ) && path@ == self.file(!first)),
                }
            },
            Some(_) => new.says(true) == self.says(true) && new.says(false) == self.says(false)
                && (r matches Err(ConfigError::NoTable)),
            None => new.says(true) == self.says(true) && new.says(false) == self.says(false)
                && (r matches Err(ConfigError::Unreadable { path, .. }) && path@ == self.file(
                first,
            )),
        }
    }

    /// Whether the files can be read back after a value was put into one and taken out of the
    /// other.
    pub open spec fn lasts(
        self,
        first: bool,
        key: Seq<char>,
        project: Option<Seq<char>>,
        value: Option<Seq<char>>,
    ) -> bool {
        &&& self.tree(first) matches Some(tree) ==> self.says(first) is None && value is None
            || kept(changed(tree, key, project, value))
        &&& self.tree(!first) matches Some(tree) ==> self.says(!first) is None || kept(
            changed(tree, key, project, None),
        )
    }

    /// The files where a key cannot be written: they stay as they are.
    pub open spec fn refuses(self, new: Store, key: Seq<char>, r: Result<(), ConfigError>) -> bool {
        new == self && if !is_key(key) {
            r matches Err(ConfigError::InvalidKey(text)) && text@ == key
        } else {
            r matches Err(ConfigError::Reserved)
        }
    }

    fn write_both(
        &mut self,
        first: bool,
        key: &str,
        value: Option<String>,
        project: Option<&str>,
    ) -> (r: Result<(), ConfigError>)
        ensures
            old(self).writes(*final(self), first, key@, str_opt(project), view_opt(value), r),
    {
        match self.write(first, key, value, project) {
            Err(error) => Err(error),
            Ok(_) => self.write(!first, key, None, project),
        }
    }

    /// Whether the files can be written one after the other.
    pub fn has_room(&self, first: bool, project: Option<&str>) -> (r: bool)
        ensures
            r == self.can_write(first, str_opt(project)),
    {
        let (a, b) = if first {
            (&self.secrets, &self.config)
        } else {
            (&self.config, &self.secrets)
        };
        if !place_in_text(a, project) {
            return false;
        }
        match read_value(a, "") {
            Ok(_) => place_in_text(b, project),
            Err(_) => true,
        }
    }

    /// Gives a key a value, as a secret or in plain; the other file no longer has one.
    pub fn set(&mut self, key: &str, value: &str, secret: bool, project: Option<&str>) -> (r:
        Result<(), ConfigError>)
        requires
            accepts(key@) ==> old(self).can_write(secret, str_opt(project)),
        ensures
            if accepts(key@) {
                old(self).writes(
                    *final(self),
                    secret,
                    key@,
                    str_opt(project),
                    Some(value@),
                    r,
                )
            } else {
                old(self).refuses(*final(self), key@, r)
            },
            r is Ok && old(self).lasts(secret, key@, str_opt(project), Some(value@))
                ==> final(self).has_only(key@, str_opt(project), value@, secret),
    {
        if let Err(error) = validate_key(key) {
            return Err(error);
        }
        let r = self.write_both(secret, key, Some(value.to_string()), project);
        proof {
            if r is Ok && old(self).lasts(secret, key@, str_opt(project), Some(value@)) {
                lemma_set_found(*old(self), *self, key@, value@, secret, str_opt(project), r);
            }
        }
        r
    }

    /// Takes the value of a key away, in plain and as a secret.
    pub fn unset(&mut self, key: &str, project: Option<&str>) -> (r: Result<(), ConfigError>)
        requires
            accepts(key@) ==> old(self).can_write(false, str_opt(project)),
        ensures
            if accepts(key@) {
                old(self).writes(*final(self), false, key@, str_opt(project), None, r)
            } else {
                old(self).refuses(*final(self), key@, r)
            },
            r is Ok && old(self).lasts(false, key@, str_opt(project), None) ==> forall|
                inferred: Option<Seq<char>>,
            | #[trigger]
                final(self).found(key@, str_opt(project), inferred) == final(self).found_globally(
                    key@,
                    project is Some,
                    inferred,
                ),
    {
        if let Err(error) = validate_key(key) {
            return Err(error);
        }
        let r = self.write_both(false, key, None, project);
        proof {
            if r is Ok && old(self).lasts(false, key@, str_opt(project), None) {
                assert forall|inferred: Option<Seq<char>>| #[trigger]
                    self.found(key@, str_opt(project), inferred) == self.found_globally(
                        key@,
                        project is Some,
                        inferred,
                    ) by {
                    lemma_unset_found(*old(self), *self, key@, str_opt(project), inferred, r);
                }
            }
        }
        r
    }

    /// The value that one of the files has of a key, among the settings of the project or among
    /// the global ones.
    pub open spec fn value_of(self, secret: bool, key: Seq<char>, project: Option<Seq<char>>) -> Option<
        Seq<char>,
    > {
        match self.tree(secret) {
            Some(tree) => value_in(layer_tree(tree, project), key),
            None => None,
        }
    }

    /// Whether a key has the value in one of the files and none in the other, so that it is what
    /// is found of the key.
    pub open spec fn has_only(
        self,
        key: Seq<char>,
        project: Option<Seq<char>>,
        value: Seq<char>,
        secret: bool,
    ) -> bool {
        &&& self.value_of(secret, key, project) == Some(value)
        &&& self.value_of(!secret, key, project) is None
        &&& forall|inferred: Option<Seq<char>>| #[trigger]
            self.found(key, project, inferred) == Some(Some(hit_for(value, secret, project)))
    }

    /// What is found of a key where the project has no setting for it: the global one, where it
    /// is asked for, or the inferred one.
    pub open spec fn found_globally(
        self,
        key: Seq<char>,
        global: bool,
        inferred: Option<Seq<char>>,
    ) -> Option<Option<HitView>> {
        if global {
            self.found(key, None, inferred)
        } else {
            match inferred {
                Some(value) => Some(
                    Some(
                        HitView {
                            value,
                            scope: Scope::Inferred,
                            visibility: Visibility::Plain,
                        },
                    ),
                ),
                None => Some(None),
            }
        }
    }

    /// Gives a key a value, unless there is no place for the project's settings; then nothing
    /// changes.
    pub fn checked_set(
        &mut self,
        key: &str,
        value: &str,
        secret: bool,
        project: Option<&str>,
    ) -> (r: Option<Result<(), ConfigError>>)
        ensures
            match r {
                Some(r) => {
                    &&& accepts(key@) ==> old(self).can_write(secret, str_opt(project))
                    &&& if accepts(key@) {
                        old(self).writes(
                            *final(self),
                            secret,
                            key@,
                            str_opt(project),
                            Some(value@),
                            r,
                        )
                    } else {
                        old(self).refuses(*final(self), key@, r)
                    }
                    &&& r is Ok && old(self).lasts(secret, key@, str_opt(project), Some(value@))
                        ==> final(self).has_only(key@, str_opt(project), value@, secret)
                },
                None => {
                    &&& accepts(key@) && !old(self).can_write(secret, str_opt(project))
                    &&& *final(self) == *old(self)
                },
            },
    {
        if validate_key(key).is_ok() && !self.has_room(secret, project) {
            return None;
        }
        Some(self.set(key, value, secret, project))
    }

    /// Takes the value of a key away, unless there is no place for the project's settings; then
    /// nothing changes.
    pub fn checked_unset(&mut self, key: &str, project: Option<&str>) -> (r: Option<
        Result<(), ConfigError>,
    >)
        ensures
            match r {
                Some(r) => {
                    &&& accepts(key@) ==> old(self).can_write(false, str_opt(project))
                    &&& if accepts(key@) {
                        old(self).writes(*final(self), false, key@, str_opt(project), None, r)
                    } else {
                        old(self).refuses(*final(self), key@, r)
                    }
                    &&& r is Ok && old(self).lasts(false, key@, str_opt(project), None)
                        ==> forall|inferred: Option<Seq<char>>| #[trigger]
                        final(self).found(key@, str_opt(project), inferred)
                            == final(self).found_globally(key@, project is Some, inferred)
                },
                None => {
                    &&& accepts(key@) && !old(self).can_write(false, str_opt(project))
                    &&& *final(self) == *old(self)
                },
            },
    {
        if validate_key(key).is_ok() && !self.has_room(false, project) {
            return None;
        }
        Some(self.unset(key, project))
    }
}

/// Whether some setting is kept under a key, for everything or for the project.
pub open spec fn is_listed(
    secrets: TreeView,
    config: TreeView,
    project: Option<Seq<char>>,
    key: Seq<char>,
) -> bool {
    ||| lists(config, seq![], true, key)
    ||| lists(secrets, seq![], true, key)
    ||| project matches Some(name) && (project_tree(config, name) matches Some(tree) && lists(
        tree,
        seq![],
        false,
        key,
    ))
    ||| project matches Some(name) && (project_tree(secrets, name) matches Some(tree) && lists(
        tree,
        seq![],
        false,
        key,
    ))
}

/// The keys of listed settings.
pub open spec fn row_keys(rows: Seq<(String, Hit)>) -> Seq<Seq<char>> {
    rows.map_values(|row: (String, Hit)| row.0@)
}

/// The list of all settings: by key, each with what is found of it.
pub open spec fn is_list(
    secrets: TreeView,
    config: TreeView,
    project: Option<Seq<char>>,
    rows: Seq<(String, Hit)>,
) -> bool {
    &&& ascends(row_keys(rows))
    &&& forall|key: Seq<char>| #[trigger]
        row_keys(rows).contains(key) <==> is_listed(secrets, config, project, key) && found_in(
            secrets,
            config,
            key,
            project,
            inferred_of(key),
        ) is Some
    &&& forall|i: int|
        0 <= i < rows.len() ==> Some((#[trigger] rows[i]).1@) == found_in(
            secrets,
            config,
            rows[i].0@,
            project,
            inferred_of(rows[i].0@),
        )
}

fn listed_keys(secrets: &Tree, config: &Tree, project: Option<&str>) -> (r: Vec<String>)
    ensures
        ascends(views(r@)),
        forall|key: Seq<char>| #[trigger]
            views(r@).contains(key) <==> is_listed(secrets@, config@, str_opt(project), key),
{
    proof {
        reveal_strlit("");
        assert(""@ =~= Seq::<char>::empty());
    }
    let mut keys: Vec<String> = Vec::new();
    keys = collect_keys(config, "", true, keys);
    keys = collect_keys(secrets, "", true, keys);
    if let Some(name) = project {
        if let Some(table) = project_table(config, name) {
            keys = collect_keys(table, "", false, keys);
        }
        if let Some(table) = project_table(secrets, name) {
            keys = collect_keys(table, "", false, keys);
        }
    }
    keys
}

fn listed_rows(secrets: &Tree, config: &Tree, project: Option<&str>) -> (r: Vec<(String, Hit)>)
    ensures
        is_list(secrets@, config@, str_opt(project), r@),
{
    let keys = listed_keys(secrets, config, project);
    let n: usize = keys.len();
    let ghost all = views(keys@);
    let ghost name = str_opt(project);
    let mut rows: Vec<(String, Hit)> = Vec::new();
    for i in 0..n
        invariant
            n == keys@.len(),
            all == views(keys@),
            ascends(all),
            name == str_opt(project),
            ascends(row_keys(rows@)),
            forall|key: Seq<char>| #[trigger]
                row_keys(rows@).contains(key) <==> all.take(i as int).contains(key) && found_in(
                    secrets@,
                    config@,
                    key,
                    name,
                    inferred_of(key),
                ) is Some,
            forall|k: int|
                0 <= k < rows@.len() ==> Some((#[trigger] rows@[k]).1@) == found_in(
                    secrets@,
                    config@,
                    rows@[k].0@,
                    name,
                    inferred_of(rows@[k].0@),
                ),
    {
        let key = keys[i].as_str();
        let ghost had = rows@;
        let ghost prior = all.take(i as int);
        assert(all[i as int] == key@);
        assert(all.take(i + 1) =~= prior.push(key@));
        let hit = find(secrets, config, key, project, inferred_default(key));
        proof {
            assert forall|x: Seq<char>| #[trigger] prior.contains(x) implies before(x, key@) by {
                let k = choose|k: int| 0 <= k < prior.len() && prior[k] == x;
                assert(all[k] == x);
            }
            let grown = all.take(i + 1);
            assert forall|x: Seq<char>| #[trigger] grown.contains(x) <==> prior.contains(x) || x
                == key@ by {
                if grown.contains(x) {
                    let k = choose|k: int| 0 <= k < grown.len() && grown[k] == x;
                    if k < i {
                        assert(prior[k] == x);
                    }
                }
                if prior.contains(x) {
                    let k = choose|k: int| 0 <= k < prior.len() && prior[k] == x;
                    assert(grown[k] == x);
                }
                assert(grown[i as int] == key@);
            }
        }
        if let Some(hit) = hit {
            rows.push((key.to_string(), hit));
            proof {
                let was = row_keys(had);
                let now = row_keys(rows@);
                assert(now =~= was.push(key@));
                assert forall|x: Seq<char>| #[trigger] now.contains(x) <==> was.contains(x) || x
                    == key@ by {
                    if was.contains(x) {
                        let k = choose|k: int| 0 <= k < was.len() && was[k] == x;
                        assert(now[k] == x);
                    }
                    assert(now[was.len() as int] == key@);
                }
                assert forall|a: int, b: int| 0 <= a < b < now.len() implies before(
                    #[trigger] now[a],
                    #[trigger] now[b],
                ) by {
                    assert(now[a] == was[a]);
                    if b < was.len() {
                        assert(now[b] == was[b]);
                    } else {
                        assert(was.contains(was[a]));
                    }
                }
            }
        }
    }
    assert(all.take(n as int) =~= all);
    rows
}

impl Store {
    /// All settings, those of the project among them.
    pub fn list(&self, project: Option<&str>) -> (r: Result<Vec<(String, Hit)>, ConfigError>)
        ensures
            match (self.tree(false), self.tree(true)) {
                (Some(config), Some(secrets)) => r matches Ok(rows) && is_list(
                    secrets,
                    config,
                    str_opt(project),
                    rows@,
                ),
                _ => r matches Err(error) && self.unreadable(error),
            },
    {
        match self.read_both() {
            Err(error) => Err(error),
            Ok((config, secrets)) => Ok(listed_rows(&secrets, &config, project)),
        }
    }
}

/// Whether settings can be written under a key.
pub open spec fn accepts(key: Seq<char>) -> bool {
    is_key(key) && !is_reserved(key)
}

/// The setting that a value is found as.
pub open spec fn hit_for(value: Seq<char>, secret: bool, project: Option<Seq<char>>) -> HitView {
    HitView {
        value,
        scope: if project is Some {
            Scope::Project
        } else {
            Scope::Global
        },
        visibility: if secret {
            Visibility::Secret
        } else {
            Visibility::Plain
        },
    }
}

/// The part of a file that the settings of a project are in.
pub open spec fn layer_tree(root: TreeView, project: Option<Seq<char>>) -> Option<TreeView> {
    match project {
        Some(name) => project_tree(root, name),
        None => Some(root),
    }
}

proof fn lemma_value_in(root: TreeView, key: Seq<char>, project: Option<Seq<char>>)
    ensures
        path_of(key, project).len() > 0,
        value_in(layer_tree(root, project), key) == match dug(root, path_of(key, project)) {
            Some(value) => shown(value),
            None => None,
        },
{
    assert(parts_of(key).len() > 0);
    if let Some(name) = project {
        lemma_dug_further(root, seq!["project"@, name], parts_of(key));
    }
}

/// The value of a key in a file that was written.
proof fn lemma_rewritten(
    text: Option<Seq<char>>,
    key: Seq<char>,
    project: Option<Seq<char>>,
    value: Option<Seq<char>>,
    new: Option<Seq<char>>,
)
    requires
        file_tree(text) matches Some(tree) && tree is Table && rewritten(
            text,
            changed(tree, key, project, value),
            value,
            new,
        ) && (text is None && value is None || kept(changed(tree, key, project, value))),
    ensures
        file_tree(new) matches Some(tree) && value_in(layer_tree(tree, project), key) == value,
{
    let tree = file_tree(text)->0;
    lemma_value_in(file_tree(new)->0, key, project);
    law_assigned_values_are_found(as_table(Some(tree)), path_of(key, project), value);
    if text is None && value is None {
        let path = path_of(key, project);
        assert(child(file_tree(new)->0, path[0]) is None);
    }
}

proof fn lemma_set_found(
    before: Store,
    after: Store,
    key: Seq<char>,
    value: Seq<char>,
    secret: bool,
    project: Option<Seq<char>>,
    r: Result<(), ConfigError>,
)
    requires
        before.writes(after, secret, key, project, Some(value), r),
        before.lasts(secret, key, project, Some(value)),
        r is Ok,
    ensures
        after.has_only(key, project, value, secret),
{
    lemma_rewritten(before.says(secret), key, project, Some(value), after.says(secret));
    lemma_rewritten(before.says(!secret), key, project, None, after.says(!secret));
}

proof fn lemma_unset_found(
    before: Store,
    after: Store,
    key: Seq<char>,
    project: Option<Seq<char>>,
    inferred: Option<Seq<char>>,
    r: Result<(), ConfigError>,
)
    requires
        before.writes(after, false, key, project, None, r),
        before.lasts(false, key, project, None),
        r is Ok,
    ensures
        after.found(key, project, inferred) == after.found_globally(
            key,
            project is Some,
            inferred,
        ),
{
    lemma_rewritten(before.says(false), key, project, None, after.says(false));
    lemma_rewritten(before.says(true), key, project, None, after.says(true));
}

/// What is written to readable files can be read back, as long as there are no more names on the
/// way than the format takes and none of them is one that it has for itself.
pub proof fn law_settings_last(
    store: Store,
    first: bool,
    key: Seq<char>,
    project: Option<Seq<char>>,
    value: Option<Seq<char>>,
)
    requires
        store.tree(false) matches Some(tree) && tree is Table && shaped(tree, 81),
        store.tree(true) matches Some(tree) && tree is Table && shaped(tree, 81),
        path_of(key, project).len() <= 81,
        !path_of(key, project).contains("$__toml_private_datetime"@),
    ensures
        store.lasts(first, key, project, value),
{
    lemma_file_is_kept(store.says(false));
    lemma_file_is_kept(store.says(true));
    lemma_value_in(store.tree(false)->0, key, project);
    law_changed_documents_are_kept(
        as_table(store.tree(first)),
        path_of(key, project),
        value,
    );
    law_changed_documents_are_kept(
        as_table(store.tree(!first)),
        path_of(key, project),
        None,
    );
}

proof fn lemma_file_is_kept(text: Option<Seq<char>>)
    requires
        file_tree(text) matches Some(tree) && tree is Table && shaped(tree, 81),
    ensures
        file_tree(text) matches Some(tree) && kept(tree),
{
    if let Some(text) = text {
        if trimmed(text).len() > 0 {
            law_documents_that_were_read_are_kept(text);
        }
    }
}

/// A setting of the project comes before the global one, a global one before the inferred one,
/// and in either place a secret before a plain one.
pub proof fn law_settings_have_an_order(
    secrets: TreeView,
    config: TreeView,
    key: Seq<char>,
    name: Seq<char>,
    inferred: Option<Seq<char>>,
)
    ensures
        ({
            let found = found_in(secrets, config, key, Some(name), inferred);
            let own_secret = value_in(project_tree(secrets, name), key);
            let own_plain = value_in(project_tree(config, name), key);
            let secret = value_in(Some(secrets), key);
            let plain = value_in(Some(config), key);
            if own_secret is Some {
                found == Some(hit_for(own_secret->0, true, Some(name)))
            } else if own_plain is Some {
                found == Some(hit_for(own_plain->0, false, Some(name)))
            } else if secret is Some {
                found == Some(hit_for(secret->0, true, None))
            } else if plain is Some {
                found == Some(hit_for(plain->0, false, None))
            } else {
                match inferred {
                    Some(value) => found matches Some(hit) && hit.value == value && hit.scope
                        == Scope::Inferred && hit.visibility == Visibility::Plain,
                    None => found is None,
                }
            }
        }),
{
}

/// The value of another key in a file that was written stays as it was.
proof fn lemma_other_stays(
    text: Option<Seq<char>>,
    key: Seq<char>,
    project: Option<Seq<char>>,
    value: Option<Seq<char>>,
    new: Option<Seq<char>>,
    other: Seq<char>,
    place: Option<Seq<char>>,
)
    requires
        file_tree(text) matches Some(tree) && tree is Table && rewritten(
            text,
            changed(tree, key, project, value),
            value,
            new,
        ) && (text is None && value is None || kept(changed(tree, key, project, value))),
        parts_ways(path_of(key, project), path_of(other, place)),
    ensures
        file_tree(new) is Some,
        value_in(layer_tree(file_tree(new)->0, place), other) == value_in(
            layer_tree(file_tree(text)->0, place),
            other,
        ),
{
    let tree = file_tree(text)->0;
    lemma_value_in(tree, other, place);
    lemma_value_in(file_tree(new)->0, other, place);
    law_other_values_stay(
        as_table(Some(tree)),
        path_of(key, project),
        value,
        path_of(other, place),
    );
}

/// Setting or unsetting a key leaves the settings of other keys as they were: of those on whose
/// way it does not lie, and that do not lie on its way.
pub proof fn law_other_settings_stay(
    before: Store,
    after: Store,
    first: bool,
    key: Seq<char>,
    project: Option<Seq<char>>,
    value: Option<Seq<char>>,
    r: Result<(), ConfigError>,
    other: Seq<char>,
    place: Option<Seq<char>>,
    inferred: Option<Seq<char>>,
)
    requires
        before.writes(after, first, key, project, value, r),
        before.lasts(first, key, project, value),
        r is Ok,
        parts_ways(path_of(key, project), path_of(other, None)),
        place is Some ==> parts_ways(path_of(key, project), path_of(other, place)),
    ensures
        after.found(other, place, inferred) == before.found(other, place, inferred),
{
    let a = before.says(first);
    let b = before.says(!first);
    lemma_other_stays(a, key, project, value, after.says(first), other, None);
    lemma_other_stays(b, key, project, None, after.says(!first), other, None);
    if place is Some {
        lemma_other_stays(a, key, project, value, after.says(first), other, place);
        lemma_other_stays(b, key, project, None, after.says(!first), other, place);
    }
}

// Settings in writing.

/// Whether a name stands before, between and behind the dots of a key.
pub open spec fn is_dotted(key: Seq<char>) -> bool {
    key.len() > 0 && forall|i: int|
        0 <= i < key.len() && #[trigger] key[i] == '.' ==> 0 < i && i + 1 < key.len() && key[i + 1]
            != '.'
}

/// A key without a name before, between or behind its dots is refused, and so is `project` with
/// everything below it; every other key is taken.
pub proof fn law_keys_are_names_between_dots(
    key: &str,
    r: Result<(), ConfigError>,
    below: Seq<char>,
)
    requires
        call_ensures(validate_key, (key,), r),
    ensures
        !is_dotted(key@) <==> (r matches Err(ConfigError::InvalidKey(_))),
        r matches Err(ConfigError::InvalidKey(text)) ==> text@ == key@,
        is_dotted(key@) && (key@ == "project"@ || key@ == "project."@ + below) ==> (r matches Err(
            ConfigError::Reserved,
        )),
        is_dotted(key@) && key@ != "project"@ && !(key@.len() > 8 && key@.take(8) == "project."@)
            ==> r is Ok,
{
    lemma_dotted(key@);
    reveal_strlit("project.");
    assert("project."@.len() == 8);
    assert(("project."@ + below).take(8) =~= "project."@);
    if key@.len() == 8 && key@.take(8) == "project."@ {
        assert(key@ =~= "project."@);
        assert(key@[7] == '.');
    }
}

proof fn lemma_dotted(key: Seq<char>)
    ensures
        is_key(key) == is_dotted(key),
    decreases key.len(),
{
    if key.contains('.') {
        let at = key.index_of_first('.')->0;
        key.index_of_first_ensures('.');
        let part = key.take(at);
        let rest = key.skip(at + 1);
        assert(!part.contains('.')) by {
            if part.contains('.') {
                let k = choose|k: int| 0 <= k < part.len() && part[k] == '.';
                assert(key[k] == '.');
            }
        }
        assert(key =~= part + seq!['.'] + rest);
        law_parts_end_at_separators(part, '.', rest);
        lemma_dotted(rest);
        let parts = parts_of(key);
        let others = parts_of(rest);
        assert(parts[0] == part);
        assert(forall|i: int| 0 <= i < others.len() ==> #[trigger] others[i] == parts[i + 1]);
        assert(is_key(key) == (part.len() > 0 && is_key(rest))) by {
            if is_key(key) {
                assert forall|i: int| 0 <= i < others.len() implies (#[trigger] others[i]).len()
                    > 0 by {
                    assert(parts[i + 1].len() > 0);
                }
            }
            if part.len() > 0 && is_key(rest) {
                assert forall|i: int| 0 <= i < parts.len() implies (#[trigger] parts[i]).len()
                    > 0 by {
                    if i > 0 {
                        assert(others[i - 1].len() > 0);
                    }
                }
            }
        }
        assert(is_dotted(key) == (part.len() > 0 && is_dotted(rest))) by {
            assert(key[at] == '.');
            if is_dotted(key) {
                assert(rest[0] == key[at + 1]);
                assert forall|i: int| 0 <= i < rest.len() && #[trigger] rest[i] == '.' implies 0 < i
                    && i + 1 < rest.len() && rest[i + 1] != '.' by {
                    assert(key[at + 1 + i] == '.');
                    assert(key[at + 1 + i + 1] == rest[i + 1]);
                }
            }
            if part.len() > 0 && is_dotted(rest) {
                assert forall|i: int| 0 <= i < key.len() && #[trigger] key[i] == '.' implies 0 < i
                    && i + 1 < key.len() && key[i + 1] != '.' by {
                    if i < at {
                        assert(part[i] == '.');
                    } else if i > at {
                        assert(rest[i - at - 1] == '.');
                        assert(rest[i - at] == key[i + 1]);
                    } else {
                        assert(key[i + 1] == rest[0]);
                    }
                }
            }
        }
    } else {
        law_parts_end_at_separators(key, '.', seq![]);
        assert(parts_of(key)[0] == key);
        assert(is_dotted(key) == (key.len() > 0)) by {
            assert forall|i: int| 0 <= i < key.len() implies #[trigger] key[i] != '.' by {
                assert(key.contains(key[i]));
            }
        }
    }
}

/// Secrets are hidden behind asterisks, other values are shown.
pub proof fn law_secrets_are_hidden(hit: &Hit, r: String)
    requires
        call_ensures(display_value, (hit,), r),
    ensures
        hit.visibility is Secret ==> r@ == "********"@,
        hit.visibility is Plain ==> r@ == hit.value@,
{
}

/// Only the model has a value that nobody set.
pub proof fn law_only_the_model_is_inferred(key: &str, r: Option<String>)
    requires
        call_ensures(inferred_default, (key,), r),
    ensures
        key@ == "openrouter.model"@ ==> (r matches Some(text) && text@ == "openai/gpt-4o-mini"@),
        key@ != "openrouter.model"@ ==> r is None,
{
}

/// Errors name the file or the key that they are about.
pub proof fn law_config_errors_name_their_key(error: &ConfigError, r: String)
    requires
        call_ensures(ConfigError::message, (error,), r),
    ensures
        error matches ConfigError::Unreadable { path, .. } ==> r@ == "could not parse "@ + path@,
        error matches ConfigError::InvalidKey(key) ==> r@ == "invalid config key "@ + key@,
        error matches ConfigError::Reserved ==> r@ == "config key project is reserved"@,
        error matches ConfigError::NotSet(key) ==> r@ == "config key "@ + key@ + " is not set"@,
        error matches ConfigError::Secret(key) ==> r@ == "refusing to print secret "@ + key@,
        error matches ConfigError::NoTable ==> r@ == "config root must be a table"@,
{
}

/// The settings of a user are two files in a directory of the home directory, and an error names
/// the one that cannot be read.
pub proof fn law_settings_are_two_files(
    home: &str,
    config: Option<String>,
    secrets: Option<String>,
    store: Store,
    key: &str,
    project: Option<&str>,
    r: Result<Option<Hit>, ConfigError>,
    rows: Result<Vec<(String, Hit)>, ConfigError>,
)
    requires
        call_ensures(Store::open, (home, config, secrets), store),
        call_ensures(Store::lookup, (&store, key, project), r),
        call_ensures(Store::list, (&store, project), rows),
    ensures
        file_tree(view_opt(config)) is None ==> {
            &&& r matches Err(ConfigError::Unreadable { path, .. }) && path@ == path_in(
                path_in(home@, ".shellops"@),
                "config.toml"@,
            )
            &&& rows is Err
        },
        file_tree(view_opt(config)) is Some && file_tree(view_opt(secrets)) is None ==> {
            &&& r matches Err(ConfigError::Unreadable { path, .. }) && path@ == path_in(
                path_in(home@, ".shellops"@),
                "secrets.toml"@,
            )
            &&& rows is Err
        },
        file_tree(view_opt(config)) is Some && file_tree(view_opt(secrets)) is Some ==> r is Ok
            && rows is Ok,
{
}

/// A missing file and one with nothing but white space have no settings.
pub proof fn law_missing_files_have_no_settings(text: Seq<char>, name: Seq<char>)
    ensures
        file_tree(None) matches Some(tree) && child(tree, name) is None,
        trimmed(text).len() == 0 ==> (file_tree(Some(text)) matches Some(tree) && child(tree, name)
            is None),
        trimmed(text).len() > 0 ==> file_tree(Some(text)) == toml_value(text),
{
}

/// What is found of a key with one name: a secret of the project, a plain setting of the project, a
/// secret for everything, a plain setting for everything, and at last what is inferred.
pub proof fn law_nearer_settings_are_found_first(
    store: &Store,
    key: &str,
    name: &str,
    inferred: Option<String>,
    r: Result<Option<Hit>, ConfigError>,
    global: Result<Option<Hit>, ConfigError>,
    text: Seq<char>,
)
    requires
        call_ensures(Store::lookup_with, (store, key, Some(name), inferred), r),
        call_ensures(Store::lookup_with, (store, key, None::<&str>, inferred), global),
        !key@.contains('.'),
        store.tree(false) is Some,
        store.tree(true) is Some,
    ensures
        ({
            let config = store.tree(false)->0;
            let secrets = store.tree(true)->0;
            let own_secret = leaf(leaf(leaf(Some(secrets), "project"@), name@), key@);
            let own_plain = leaf(leaf(leaf(Some(config), "project"@), name@), key@);
            let secret = leaf(Some(secrets), key@);
            let plain = leaf(Some(config), key@);
            let told = Some(TreeView::Text(text));
            &&& own_secret == told ==> finds(r, text, Scope::Project, Visibility::Secret)
            &&& own_secret is None && own_plain == told ==> finds(
                r,
                text,
                Scope::Project,
                Visibility::Plain,
            )
            &&& own_secret is None && own_plain is None && secret == told ==> finds(
                r,
                text,
                Scope::Global,
                Visibility::Secret,
            )
            &&& own_secret is None && own_plain is None && secret is None && plain == told ==> finds(
                r,
                text,
                Scope::Global,
                Visibility::Plain,
            )
            &&& own_secret is None && own_plain is None && secret is None && plain is None ==> {
                &&& inferred matches Some(value) ==> finds(
                    r,
                    value@,
                    Scope::Inferred,
                    Visibility::Plain,
                )
                &&& inferred is None ==> (r matches Ok(None))
            }
            &&& secret == told ==> finds(global, text, Scope::Global, Visibility::Secret)
            &&& secret is None && plain == told ==> finds(
                global,
                text,
                Scope::Global,
                Visibility::Plain,
            )
        }),
{
    let config = store.tree(false)->0;
    let secrets = store.tree(true)->0;
    lemma_leaf(config, key@);
    lemma_leaf(secrets, key@);
    lemma_own_leaf(config, name@);
    lemma_own_leaf(secrets, name@);
    if let Some(own) = project_tree(config, name@) {
        lemma_leaf(own, key@);
    }
    if let Some(own) = project_tree(secrets, name@) {
        lemma_leaf(own, key@);
    }
}

/// The value of a name in a value that may be there.
pub open spec fn leaf(tree: Option<TreeView>, name: Seq<char>) -> Option<TreeView> {
    match tree {
        Some(TreeView::Table(table)) => if table.dom().contains(name) {
            Some(table[name])
        } else {
            None
        },
        _ => None,
    }
}

/// Whether a value was found, with where it comes from and whether it may be shown.
pub open spec fn finds(
    r: Result<Option<Hit>, ConfigError>,
    text: Seq<char>,
    scope: Scope,
    visibility: Visibility,
) -> bool {
    r matches Ok(Some(hit)) && hit.value@ == text && hit.scope == scope && hit.visibility
        == visibility
}

proof fn lemma_leaf(tree: TreeView, key: Seq<char>)
    requires
        !key.contains('.'),
    ensures
        dug(tree, parts_of(key)) == leaf(Some(tree), key),
{
    reveal_with_fuel(dug, 2);
    law_parts_end_at_separators(key, '.', seq![]);
    assert(parts_of(key)[0] == key);
    assert(parts_of(key).skip(1).len() == 0);
}

proof fn lemma_own_leaf(tree: TreeView, name: Seq<char>)
    ensures
        project_tree(tree, name) == leaf(leaf(Some(tree), "project"@), name),
{
    let steps = seq!["project"@, name];
    assert(steps[0] == "project"@);
    let rest = steps.skip(1);
    assert(rest[0] == name);
    assert(rest.skip(1).len() == 0);
    if let Some(next) = child(tree, "project"@) {
        assert(dug(next, rest) == match child(next, name) {
            Some(end) => dug(end, rest.skip(1)),
            None => None,
        });
    }
}

/// A key with several names leads through the tables of the names before its dots.
pub proof fn law_keys_lead_through_tables(tree: TreeView, first: Seq<char>, rest: Seq<char>)
    requires
        !first.contains('.'),
    ensures
        value_in(Some(tree), first + "."@ + rest) == match leaf(Some(tree), first) {
            Some(next) => value_in(Some(next), rest),
            None => None,
        },
{
    reveal_strlit(".");
    assert("."@ =~= seq!['.']);
    law_parts_end_at_separators(first, '.', rest);
    let path = parts_of(first + "."@ + rest);
    assert(path[0] == first);
    assert(path.skip(1) =~= parts_of(rest));
}

/// What is shown of a key is what is found of it, unless it is a secret.
pub proof fn law_secrets_are_not_printed(
    store: &Store,
    key: &str,
    project: Option<&str>,
    found: Result<Option<Hit>, ConfigError>,
    r: Result<Hit, ConfigError>,
)
    requires
        call_ensures(Store::lookup, (store, key, project), found),
        call_ensures(Store::get, (store, key, project), r),
    ensures
        r matches Ok(hit) ==> hit.visibility is Plain && (found matches Ok(Some(same)) && same@
            == hit@),
        found matches Ok(Some(hit)) ==> (hit.visibility is Secret ==> (r matches Err(
            ConfigError::Secret(text),
        ) && text@ == key@)),
        found matches Ok(Some(hit)) ==> (hit.visibility is Plain ==> r is Ok),
        found matches Ok(None) ==> (r matches Err(ConfigError::NotSet(text)) && text@ == key@),
        found is Err ==> r is Err,
{
}

/// The list has every key with one name that a text is kept under, but for that of the projects;
/// the keys are in order, and each has what is found of it.
pub proof fn law_the_list_has_what_is_found(
    store: &Store,
    project: Option<&str>,
    r: Result<Vec<(String, Hit)>, ConfigError>,
    i: int,
    j: int,
    key: &str,
    found: Result<Option<Hit>, ConfigError>,
    secret: bool,
    text: Seq<char>,
)
    requires
        call_ensures(Store::list, (store, project), r),
        call_ensures(Store::lookup, (store, key, project), found),
        store.tree(false) is Some,
        store.tree(true) is Some,
    ensures
        r is Ok,
        0 <= i < j < r->Ok_0@.len() ==> before(r->Ok_0@[i].0@, r->Ok_0@[j].0@),
        0 <= i < r->Ok_0@.len() && r->Ok_0@[i].0@ == key@ ==> (found matches Ok(Some(hit)) && hit@
            == r->Ok_0@[i].1@),
        !key@.contains('.') && key@ != "project"@ && leaf(store.tree(secret), key@) == Some(
            TreeView::Text(text),
        ) ==> exists|k: int| 0 <= k < r->Ok_0@.len() && (#[trigger] r->Ok_0@[k]).0@ == key@,
{
    let rows = r->Ok_0@;
    let keys = row_keys(rows);
    if 0 <= i < j < rows.len() {
        assert(keys[i] == rows[i].0@ && keys[j] == rows[j].0@);
    }
    if !key@.contains('.') && key@ != "project"@ && leaf(store.tree(secret), key@) == Some(
        TreeView::Text(text),
    ) {
        let tree = store.tree(secret)->0;
        let table = tree->Table_0;
        assert(table.dom().contains(key@));
        assert(entry_lists(key@, table[key@], seq![], true, key@));
        assert(lists(tree, seq![], true, key@));
        lemma_leaf(tree, key@);
        assert(value_in(Some(tree), key@) is Some);
        assert(keys.contains(key@));
        let k = choose|k: int| 0 <= k < keys.len() && keys[k] == key@;
        assert(rows[k].0@ == key@);
    }
}

/// Whether the settings can be read, and a setting of the key fits into the files.
pub open spec fn has_space(store: Store, key: Seq<char>, project: Option<Seq<char>>) -> bool {
    &&& store.tree(false) matches Some(tree) && tree is Table && shaped(tree, 81)
    &&& store.tree(true) matches Some(tree) && tree is Table && shaped(tree, 81)
    &&& path_of(key, project).len() <= 81
    &&& !path_of(key, project).contains("$__toml_private_datetime"@)
}

/// What is set of a key is found of it, as a secret or not, whatever was set before.
pub proof fn law_what_is_set_is_found(
    store: &mut Store,
    after: &Store,
    key: &str,
    value: &str,
    secret: bool,
    project: Option<&str>,
    r: Result<(), ConfigError>,
    found: Result<Option<Hit>, ConfigError>,
)
    requires
        call_ensures(Store::set, (store, key, value, secret, project), r),
        *after == *final(store),
        is_dotted(key@),
        has_space(*store, key@, str_opt(project)),
        call_ensures(Store::lookup, (after, key, project), found),
    ensures
        key@ == "project"@ || key@.len() > 8 && key@.take(8) == "project."@ || r is Ok,
        r is Ok ==> finds(
            found,
            value@,
            if project is Some {
                Scope::Project
            } else {
                Scope::Global
            },
            if secret {
                Visibility::Secret
            } else {
                Visibility::Plain
            },
        ),
        r is Err ==> *after == *old(store),
{
    lemma_dotted(key@);
    lemma_reserved(key@);
    law_settings_last(*store, secret, key@, str_opt(project), Some(value@));
}

proof fn lemma_reserved(key: Seq<char>)
    ensures
        is_reserved(key) && is_dotted(key) ==> key == "project"@ || key.len() > 8 && key.take(8)
            == "project."@,
{
    reveal_strlit("project.");
    assert("project."@.len() == 8);
    if key.len() == 8 && key.take(8) == "project."@ {
        assert(key =~= "project."@);
        assert(key[7] == '.');
    }
}

/// What is unset for the project is found as without the project, and what is unset for everything
/// is inferred or not found.
pub proof fn law_what_is_unset_is_not_found(
    store: &mut Store,
    after: &Store,
    key: &str,
    project: Option<&str>,
    inferred: Option<String>,
    r: Result<(), ConfigError>,
    found: Result<Option<Hit>, ConfigError>,
    global: Result<Option<Hit>, ConfigError>,
)
    requires
        call_ensures(Store::unset, (store, key, project), r),
        *after == *final(store),
        is_dotted(key@),
        has_space(*store, key@, str_opt(project)),
        call_ensures(Store::lookup_with, (after, key, project, inferred), found),
        call_ensures(Store::lookup_with, (after, key, None::<&str>, inferred), global),
    ensures
        key@ == "project"@ || key@.len() > 8 && key@.take(8) == "project."@ || r is Ok,
        r is Ok && project is Some ==> (found matches Ok(hit) && (global matches Ok(other)
            && hit_opt(hit) == hit_opt(other))),
        r is Ok && project is None && inferred is None ==> (found matches Ok(None)),
        r is Ok && project is None ==> (inferred matches Some(text) ==> finds(
            found,
            text@,
            Scope::Inferred,
            Visibility::Plain,
        )),
        r is Err ==> *after == *old(store),
{
    lemma_dotted(key@);
    lemma_reserved(key@);
    law_settings_last(*store, false, key@, str_opt(project), None);
    assert(str_opt(project) is Some == project is Some);
    if r is Ok {
        assert(after.found(key@, str_opt(project), view_opt(inferred)) == after.found_globally(
            key@,
            project is Some,
            view_opt(inferred),
        ));
    }
}

/// Setting and unsetting a key leaves other keys as they were: of keys with one name, all
/// others.
pub proof fn law_other_keys_keep_their_settings(
    store: &mut Store,
    twin: &mut Store,
    after_set: &Store,
    after_unset: &Store,
    key: &str,
    value: &str,
    secret: bool,
    r: Result<(), ConfigError>,
    u: Result<(), ConfigError>,
    other: &str,
    inferred: Option<String>,
    was: Result<Option<Hit>, ConfigError>,
    now: Result<Option<Hit>, ConfigError>,
    then: Result<Option<Hit>, ConfigError>,
)
    requires
        *store == *twin,
        call_ensures(Store::set, (store, key, value, secret, None::<&str>), r),
        call_ensures(Store::unset, (twin, key, None::<&str>), u),
        *after_set == *final(store),
        *after_unset == *final(twin),
        !key@.contains('.'),
        !other@.contains('.'),
        other@ != key@,
        has_space(*store, key@, None),
        call_ensures(Store::lookup_with, (&*store, other, None::<&str>, inferred), was),
        call_ensures(Store::lookup_with, (after_set, other, None::<&str>, inferred), now),
        call_ensures(Store::lookup_with, (after_unset, other, None::<&str>, inferred), then),
    ensures
        was matches Ok(hit) && (now matches Ok(same) && hit_opt(same) == hit_opt(hit)) && (
        then matches Ok(same) && hit_opt(same) == hit_opt(hit)),
{
    law_settings_last(*store, secret, key@, None, Some(value@));
    law_settings_last(*store, false, key@, None, None);
    law_parts_end_at_separators(key@, '.', seq![]);
    law_parts_end_at_separators(other@, '.', seq![]);
    assert(path_of(key@, None)[0] != path_of(other@, None)[0]);
    assert(parts_ways(path_of(key@, None), path_of(other@, None)));
    if accepts(key@) {
        law_other_settings_stay(
            *store,
            *after_set,
            secret,
            key@,
            None,
            Some(value@),
            r,
            other@,
            None,
            view_opt(inferred),
        );
        law_other_settings_stay(
            *twin,
            *after_unset,
            false,
            key@,
            None,
            None,
            u,
            other@,
            None,
            view_opt(inferred),
        );
    }
}

/// Where there is room, setting and unsetting with care do as without; where there is none, nothing
/// changes, and neither does it for a key that is refused.
pub proof fn law_careful_changes_are_changes(
    store: &mut Store,
    after: &Store,
    key: &str,
    value: &str,
    secret: bool,
    project: Option<&str>,
    r: Option<Result<(), ConfigError>>,
    found: Result<Option<Hit>, ConfigError>,
)
    requires
        call_ensures(Store::checked_set, (store, key, value, secret, project), r),
        *after == *final(store),
        call_ensures(Store::lookup, (after, key, project), found),
    ensures
        r is None ==> *after == *old(store),
        !is_dotted(key@) ==> *after == *old(store) && (r matches Some(Err(
            ConfigError::InvalidKey(text),
        )) && text@ == key@),
        is_dotted(key@) && key@ == "project"@ ==> *after == *old(store) && (r matches Some(Err(
            ConfigError::Reserved,
        ))),
        has_space(*old(store), key@, str_opt(project)) ==> (r matches Some(Ok(_)) ==> finds(
            found,
            value@,
            if project is Some {
                Scope::Project
            } else {
                Scope::Global
            },
            if secret {
                Visibility::Secret
            } else {
                Visibility::Plain
            },
        )),
        has_space(*old(store), key@, None) && project is None && is_dotted(key@) ==> r is Some,
{
    lemma_dotted(key@);
    if has_space(*store, key@, str_opt(project)) {
        law_settings_last(*store, secret, key@, str_opt(project), Some(value@));
    }
}

/// The settings of a project are kept for the root of its repository.
pub proof fn law_projects_are_kept_by_their_root(
    answer: &Output,
    r: Result<String, ProjectError>,
    root: Result<String, ProjectError>,
)
    requires
        call_ensures(project_key, (answer,), r),
        call_ensures(git_root, (answer,), root),
    ensures
        r is Ok <==> root is Ok,
        r matches Ok(text) ==> text@ == root->Ok_0@,
{
}

} // verus!
