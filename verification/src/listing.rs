//! Which settings are listed, and the order that the files of settings are in.

use crate::codec::{drawn, kept, shaped};
use crate::config::{
    accepts, changed, file_tree, found_in, has_place, inferred_of, is_key, is_list, is_listed,
    is_reserved, law_settings_last, parts_of, path_of, project_tree, rewritten, row_keys, value_in,
    ConfigError, Hit, Scope, Store,
};
use crate::text::{has_prefix, lemma_run_len, lemma_run_len_is, only, split_on, upto};
use crate::tree::{
    as_table, ascends, assigned, below, child, dug, entry_lists, lists, shown, TreeView,
};
use vstd::prelude::*;

verus! {

/// A name that can be part of a key: not empty, and without dots.
pub open spec fn is_name(name: Seq<char>) -> bool {
    name.len() > 0 && !name.contains('.')
}

/// Whether all names in a value can be parts of keys.
pub open spec fn plainly_named(tree: TreeView) -> bool
    decreases tree,
{
    match tree {
        TreeView::Table(table) => forall|name: Seq<char>|
            #![trigger table[name]]
            #![trigger table.dom().contains(name)]
            table.dom().contains(name) ==> is_name(name) && plainly_named(table[name]),
        _ => true,
    }
}

/// Whether all names in a file of settings can be parts of keys; only projects may have any name.
pub open spec fn well_named(root: TreeView) -> bool {
    &&& forall|name: Seq<char>| name != "project"@ ==> match #[trigger] child(root, name) {
        Some(value) => is_name(name) && plainly_named(value),
        None => true,
    }
    &&& forall|name: Seq<char>| match #[trigger] project_tree(root, name) {
        Some(own) => plainly_named(own),
        None => true,
    }
}

// Keys and their parts.

proof fn lemma_joined(name: Seq<char>, rest: Seq<char>)
    requires
        is_name(name),
    ensures
        split_on(name, '.') == seq![name],
        split_on(name + "."@ + rest, '.') == seq![name] + split_on(rest, '.'),
{
    reveal_strlit(".");
    let stop = only('.');
    let all = name + "."@ + rest;
    let n = name.len() as int;
    assert forall|i: int| 0 <= i < n implies !#[trigger] stop(name[i]) by {
        assert(name.contains(name[i]));
    }
    lemma_run_len_is(name, stop, n);
    assert forall|i: int| 0 <= i < n implies !#[trigger] stop(all[i]) by {
        assert(all[i] == name[i]);
        assert(!stop(name[i]));
    }
    assert(all[n] == '.');
    lemma_run_len_is(all, stop, n);
    assert(all.take(n) =~= name);
    assert(all.skip(n + 1) =~= rest);
}

proof fn lemma_parted(key: Seq<char>)
    ensures
        split_on(key, '.').len() > 0,
        !split_on(key, '.')[0].contains('.'),
        if split_on(key, '.').len() == 1 {
            key == split_on(key, '.')[0]
        } else {
            exists|rest: Seq<char>|
                key == split_on(key, '.')[0] + "."@ + rest && #[trigger] split_on(rest, '.')
                    == split_on(key, '.').skip(1)
        },
{
    reveal_strlit(".");
    let n = upto(key, '.');
    lemma_run_len(key, only('.'));
    let first = split_on(key, '.')[0];
    assert forall|i: int| 0 <= i < n implies key[i] != '.' by {
        assert(!only('.')(key[i]));
    }
    if n < key.len() {
        let rest = key.skip(n + 1);
        assert(only('.')(key[n]));
        assert(first == key.take(n));
        assert(split_on(key, '.').skip(1) =~= split_on(rest, '.'));
        assert(key =~= first + "."@ + rest);
        lemma_some_part(rest);
    }
}

proof fn lemma_some_part(key: Seq<char>)
    ensures
        split_on(key, '.').len() > 0,
{
}

proof fn lemma_parts_are_names(key: Seq<char>, i: int)
    requires
        is_key(key),
        0 <= i < parts_of(key).len(),
    ensures
        is_name(parts_of(key)[i]),
    decreases parts_of(key).len(),
{
    lemma_parted(key);
    assert(parts_of(key)[i].len() > 0);
    if i > 0 {
        let rest = choose|rest: Seq<char>|
            key == parts_of(key)[0] + "."@ + rest && #[trigger] split_on(rest, '.')
                == parts_of(key).skip(1);
        assert forall|j: int| 0 <= j < parts_of(rest).len() implies (
        #[trigger] parts_of(rest)[j]).len() > 0 by {
            assert(parts_of(rest)[j] == parts_of(key)[j + 1]);
        }
        lemma_parts_are_names(rest, i - 1);
    }
}

proof fn lemma_first_is_free(key: Seq<char>)
    requires
        accepts(key),
    ensures
        parts_of(key)[0] != "project"@,
{
    lemma_parted(key);
    reveal_strlit("project");
    reveal_strlit("project.");
    reveal_strlit(".");
    if parts_of(key)[0] == "project"@ && parts_of(key).len() > 1 {
        let rest = choose|rest: Seq<char>|
            key == parts_of(key)[0] + "."@ + rest && #[trigger] split_on(rest, '.')
                == parts_of(key).skip(1);
        assert(key.take(8) =~= "project."@);
        assert(has_prefix(key, "project."@));
        assert(is_reserved(key));
    }
}

// What is listed is found.

proof fn lemma_found_in_child(tree: TreeView, name: Seq<char>, rest: Seq<char>)
    requires
        is_name(name),
    ensures
        value_in(Some(tree), name) == match child(tree, name) {
            Some(value) => shown(value),
            None => None,
        },
        value_in(Some(tree), name + "."@ + rest) == value_in(child(tree, name), rest),
{
    lemma_joined(name, rest);
    let one = seq![name];
    let more = one + split_on(rest, '.');
    assert(one.skip(1) =~= seq![]);
    assert(more.skip(1) =~= split_on(rest, '.'));
    assert(more[0] == name);
    reveal_with_fuel(dug, 2);
}

proof fn lemma_listed_is_found(
    tree: TreeView,
    prefix: Seq<char>,
    global: bool,
    key: Seq<char>,
) -> (rest: Seq<char>)
    requires
        prefix.len() > 0,
        plainly_named(tree),
        lists(tree, prefix, global, key),
    ensures
        key == prefix + "."@ + rest,
        value_in(Some(tree), rest) is Some,
    decreases tree,
{
    let table = tree->Table_0;
    let name = choose|name: Seq<char>| #[trigger]
        table.dom().contains(name) && entry_lists(name, table[name], prefix, global, key);
    if table[name] is Table {
        let deeper = lemma_listed_is_found(table[name], below(prefix, name), global, key);
        let rest = name + "."@ + deeper;
        lemma_found_in_child(tree, name, deeper);
        assert(key =~= prefix + "."@ + rest);
        rest
    } else {
        lemma_found_in_child(tree, name, seq![]);
        name
    }
}

proof fn lemma_found_is_listed(
    tree: TreeView,
    prefix: Seq<char>,
    global: bool,
    rest: Seq<char>,
)
    requires
        prefix.len() > 0,
        plainly_named(tree),
        value_in(Some(tree), rest) is Some,
    ensures
        lists(tree, prefix, global, prefix + "."@ + rest),
    decreases tree,
{
    let parts = split_on(rest, '.');
    let name = parts[0];
    let key = prefix + "."@ + rest;
    lemma_parted(rest);
    assert(child(tree, name) is Some);
    let table = tree->Table_0;
    assert(table.dom().contains(name));
    if parts.len() == 1 {
        lemma_found_in_child(tree, name, seq![]);
        assert(entry_lists(name, table[name], prefix, global, key));
    } else {
        let deeper = choose|deeper: Seq<char>|
            rest == name + "."@ + deeper && #[trigger] split_on(deeper, '.') == parts.skip(1);
        lemma_found_in_child(tree, name, deeper);
        lemma_some_part(deeper);
        assert(table[name] is Table);
        lemma_found_is_listed(table[name], below(prefix, name), global, deeper);
        assert(below(prefix, name) + "."@ + deeper =~= key);
        assert(entry_lists(name, table[name], prefix, global, key));
    }
}

proof fn lemma_lists(tree: TreeView, global: bool, key: Seq<char>)
    requires
        forall|name: Seq<char>|
            !(global && name == "project"@) ==> match #[trigger] child(tree, name) {
                Some(value) => is_name(name) && plainly_named(value),
                None => true,
            },
        global ==> parts_of(key)[0] != "project"@,
    ensures
        lists(tree, seq![], global, key) <==> value_in(Some(tree), key) is Some,
{
    let table = tree->Table_0;
    let none = Seq::<char>::empty();
    lemma_some_part(key);
    if !(tree is Table) {
        assert(child(tree, parts_of(key)[0]) is None);
    }
    if lists(tree, none, global, key) {
        let name = choose|name: Seq<char>| #[trigger]
            table.dom().contains(name) && entry_lists(name, table[name], none, global, key);
        assert(child(tree, name) == Some(table[name]));
        if table[name] is Table {
            let rest = lemma_listed_is_found(table[name], name, global, key);
            lemma_found_in_child(tree, name, rest);
        } else {
            lemma_found_in_child(tree, name, none);
        }
    }
    if value_in(Some(tree), key) is Some {
        let parts = parts_of(key);
        let name = parts[0];
        lemma_parted(key);
        assert(child(tree, name) == Some(table[name]));
        if parts.len() == 1 {
            lemma_found_in_child(tree, name, none);
            assert(entry_lists(name, table[name], none, global, key));
        } else {
            let rest = choose|rest: Seq<char>|
                key == name + "."@ + rest && #[trigger] split_on(rest, '.') == parts.skip(1);
            lemma_found_in_child(tree, name, rest);
            lemma_some_part(rest);
            assert(table[name] is Table);
            lemma_found_is_listed(table[name], name, global, rest);
            assert(entry_lists(name, table[name], none, global, key));
        }
    }
}

proof fn lemma_lists_own(root: TreeView, name: Seq<char>, key: Seq<char>)
    requires
        well_named(root),
    ensures
        (project_tree(root, name) matches Some(own) && lists(own, seq![], false, key))
            <==> value_in(project_tree(root, name), key) is Some,
{
    if let Some(own) = project_tree(root, name) {
        lemma_lists(own, false, key);
    }
}

/// In well named files, a key is listed exactly where a setting is found that is not inferred: a
/// mere default is not listed, nor is the setting of another project.
pub proof fn law_listed_settings_are_found(
    secrets: TreeView,
    config: TreeView,
    project: Option<Seq<char>>,
    key: Seq<char>,
)
    requires
        accepts(key),
        well_named(secrets),
        well_named(config),
    ensures
        is_listed(secrets, config, project, key) <==> found_in(
            secrets,
            config,
            key,
            project,
            None,
        ) is Some,
{
    lemma_first_is_free(key);
    lemma_lists(config, true, key);
    lemma_lists(secrets, true, key);
    if let Some(name) = project {
        lemma_lists_own(config, name, key);
        lemma_lists_own(secrets, name, key);
    }
}

// What is written is well named.

proof fn lemma_assigned_is_plain(
    table: Map<Seq<char>, TreeView>,
    path: Seq<Seq<char>>,
    value: Option<Seq<char>>,
)
    requires
        plainly_named(TreeView::Table(table)),
        path.len() > 0,
        forall|i: int| 0 <= i < path.len() ==> is_name(#[trigger] path[i]),
    ensures
        plainly_named(TreeView::Table(assigned(table, path, value))),
    decreases path.len(),
{
    let new = assigned(table, path, value);
    assert(is_name(path[0]));
    if path.len() > 1 {
        let inner = as_table(child(TreeView::Table(table), path[0]));
        if let Some(TreeView::Table(t)) = child(TreeView::Table(table), path[0]) {
            assert(plainly_named(table[path[0]]));
        }
        lemma_nothing_is_plain();
        assert forall|i: int| 0 <= i < path.skip(1).len() implies is_name(
            #[trigger] path.skip(1)[i],
        ) by {
            assert(path.skip(1)[i] == path[i + 1]);
        }
        lemma_assigned_is_plain(inner, path.skip(1), value);
    }
    assert forall|name: Seq<char>| new.dom().contains(name) implies is_name(name)
        && plainly_named(#[trigger] new[name]) by {
        if name != path[0] {
            assert(table.dom().contains(name) && new[name] == table[name]);
        }
    }
}

proof fn lemma_nothing_is_plain()
    ensures
        plainly_named(TreeView::Table(Map::empty())),
{
}

proof fn lemma_own(root: TreeView, name: Seq<char>)
    ensures
        project_tree(root, name) == match child(root, "project"@) {
            Some(projects) => child(projects, name),
            None => None,
        },
{
    let path = seq!["project"@, name];
    assert(path.skip(1) =~= seq![name]);
    assert(path.skip(1).skip(1) =~= seq![]);
    reveal_with_fuel(dug, 3);
}

proof fn lemma_changed_is_well_named(
    root: TreeView,
    key: Seq<char>,
    project: Option<Seq<char>>,
    value: Option<Seq<char>>,
)
    requires
        well_named(root),
        accepts(key),
    ensures
        well_named(changed(root, key, project, value)),
{
    let table = as_table(Some(root));
    let path = path_of(key, project);
    let parts = parts_of(key);
    let new = changed(root, key, project, value);
    let grown = new->Table_0;
    lemma_parted(key);
    lemma_first_is_free(key);
    lemma_nothing_is_plain();
    assert forall|i: int| 0 <= i < parts.len() implies is_name(#[trigger] parts[i]) by {
        lemma_parts_are_names(key, i);
    }
    match project {
        None => {
            assert forall|name: Seq<char>| name != "project"@ implies match #[trigger] child(
                new,
                name,
            ) {
                Some(value) => is_name(name) && plainly_named(value),
                None => true,
            } by {
                if name != path[0] {
                    assert(child(new, name) == child(root, name));
                } else {
                    assert(is_name(parts[0]));
                    if path.len() > 1 {
                        let inner = as_table(child(root, path[0]));
                        assert(plainly_named(TreeView::Table(inner)));
                        assert forall|i: int| 0 <= i < path.skip(1).len() implies is_name(
                            #[trigger] path.skip(1)[i],
                        ) by {
                            assert(path.skip(1)[i] == parts[i + 1]);
                        }
                        lemma_assigned_is_plain(inner, path.skip(1), value);
                    }
                }
            }
            assert(child(new, "project"@) == child(root, "project"@));
            assert forall|name: Seq<char>| match #[trigger] project_tree(new, name) {
                Some(own) => plainly_named(own),
                None => true,
            } by {
                lemma_own(new, name);
                lemma_own(root, name);
                assert(project_tree(new, name) == project_tree(root, name));
            }
        },
        Some(owner) => {
            let projects = as_table(child(root, "project"@));
            let own = as_table(child(TreeView::Table(projects), owner));
            assert(path[0] == "project"@ && path[1] == owner);
            assert(path.skip(1).skip(1) =~= parts);
            assert(path.skip(1)[0] == owner);
            reveal_with_fuel(assigned, 3);
            assert(plainly_named(TreeView::Table(own))) by {
                lemma_own(root, owner);
                assert(match project_tree(root, owner) {
                    Some(own) => plainly_named(own),
                    None => true,
                });
            }
            lemma_assigned_is_plain(own, parts, value);
            assert forall|name: Seq<char>| name != "project"@ implies match #[trigger] child(
                new,
                name,
            ) {
                Some(value) => is_name(name) && plainly_named(value),
                None => true,
            } by {
                assert(child(new, name) == child(root, name));
            }
            assert forall|name: Seq<char>| match #[trigger] project_tree(new, name) {
                Some(own) => plainly_named(own),
                None => true,
            } by {
                lemma_own(new, name);
                lemma_own(root, name);
                if name != owner {
                    assert(match project_tree(root, name) {
                        Some(own) => plainly_named(own),
                        None => true,
                    });
                }
            }
        },
    }
}

/// A file that is missing or blank is well named.
pub proof fn law_empty_files_are_well_named()
    ensures
        well_named(TreeView::Table(Map::empty())),
{
    let nothing = TreeView::Table(Map::empty());
    assert forall|name: Seq<char>| match #[trigger] project_tree(nothing, name) {
        Some(own) => plainly_named(own),
        None => true,
    } by {
        lemma_own(nothing, name);
    }
}

/// Whether a file of settings is well named, no deeper than the format takes, and has a place for
/// the settings of every project.
pub open spec fn well_ordered(root: TreeView) -> bool {
    &&& root is Table
    &&& well_named(root)
    &&& shaped(root, 81)
    &&& forall|project: Option<Seq<char>>| #[trigger] has_place(root, project)
}

proof fn lemma_changed_has_place(
    root: TreeView,
    key: Seq<char>,
    project: Option<Seq<char>>,
    value: Option<Seq<char>>,
    other: Option<Seq<char>>,
)
    requires
        root is Table,
        accepts(key),
        has_place(root, project),
        has_place(root, other),
    ensures
        has_place(changed(root, key, project, value), other),
{
    let path = path_of(key, project);
    let new = changed(root, key, project, value);
    lemma_parted(key);
    lemma_first_is_free(key);
    if let Some(name) = other {
        lemma_own(root, name);
        lemma_own(new, name);
        match project {
            None => {
                assert(path[0] != "project"@);
                assert(child(new, "project"@) == child(root, "project"@));
            },
            Some(owner) => {
                lemma_own(root, owner);
                assert(path[0] == "project"@ && path[1] == owner);
                assert(path.skip(1)[0] == owner);
                reveal_with_fuel(assigned, 3);
            },
        }
    }
}

proof fn lemma_rewritten_is_in_order(
    text: Option<Seq<char>>,
    key: Seq<char>,
    project: Option<Seq<char>>,
    value: Option<Seq<char>>,
    new: Option<Seq<char>>,
)
    requires
        accepts(key),
        file_tree(text) matches Some(tree) && well_ordered(tree) && rewritten(
            text,
            changed(tree, key, project, value),
            value,
            new,
        ) && (text is None && value is None || kept(changed(tree, key, project, value))),
    ensures
        file_tree(new) matches Some(tree) && well_ordered(tree),
{
    let root = file_tree(text)->0;
    law_empty_files_are_well_named();
    lemma_changed_is_well_named(root, key, project, value);
    assert forall|other: Option<Seq<char>>| #[trigger]
        has_place(changed(root, key, project, value), other) by {
        assert(has_place(root, project) && has_place(root, other));
        lemma_changed_has_place(root, key, project, value, other);
    }
}

/// Whether both files can be read and are well ordered: so are the files that only this library
/// wrote.
pub open spec fn is_in_order(store: Store) -> bool {
    &&& store.tree(false) matches Some(tree) && well_ordered(tree)
    &&& store.tree(true) matches Some(tree) && well_ordered(tree)
}

/// Files in order can be written for every project.
pub proof fn law_stores_in_order_can_be_written(
    store: Store,
    first: bool,
    project: Option<Seq<char>>,
)
    requires
        is_in_order(store),
    ensures
        store.can_write(first, project),
{
    assert(has_place(store.tree(false)->0, project));
    assert(has_place(store.tree(true)->0, project));
}

/// Where neither file is there yet, they are in order.
pub proof fn law_new_stores_are_in_order(store: Store)
    requires
        store.says(false) is None,
        store.says(true) is None,
    ensures
        is_in_order(store),
{
    let nothing = TreeView::Table(Map::empty());
    law_empty_files_are_well_named();
    assert forall|project: Option<Seq<char>>| #[trigger] has_place(nothing, project) by {
        if let Some(name) = project {
            lemma_own(nothing, name);
        }
    }
}

/// Setting and unsetting keep the files in order, as long as there are no more names on the way
/// than the format takes and none of them is one that it has for itself.
pub proof fn law_written_stores_are_in_order(
    before: Store,
    after: Store,
    first: bool,
    key: Seq<char>,
    project: Option<Seq<char>>,
    value: Option<Seq<char>>,
    r: Result<(), ConfigError>,
)
    requires
        is_in_order(before),
        accepts(key),
        path_of(key, project).len() <= 81,
        !path_of(key, project).contains("$__toml_private_datetime"@),
        before.writes(after, first, key, project, value, r),
    ensures
        r is Ok,
        is_in_order(after),
{
    law_settings_last(before, first, key, project, value);
    lemma_rewritten_is_in_order(before.says(first), key, project, value, after.says(first));
    lemma_rewritten_is_in_order(before.says(!first), key, project, None, after.says(!first));
}

// What was written by setting and unsetting.

proof fn lemma_drawn_is_plain(tree: TreeView, source: TreeView)
    requires
        plainly_named(source),
        drawn(tree, source),
    ensures
        plainly_named(tree),
    decreases tree,
{
    if let TreeView::Table(table) = tree {
        let from = source->Table_0;
        assert forall|name: Seq<char>| table.dom().contains(name) implies is_name(name)
            && plainly_named(#[trigger] table[name]) by {
            assert(from.dom().contains(name));
            assert(plainly_named(from[name]));
            lemma_drawn_is_plain(table[name], from[name]);
        }
    }
}

proof fn lemma_child_is_drawn(tree: TreeView, source: TreeView, name: Seq<char>)
    requires
        drawn(tree, source),
        child(tree, name) is Some,
    ensures
        child(source, name) is Some,
        drawn(child(tree, name)->0, child(source, name)->0),
{
    assert(tree->Table_0.dom().contains(name));
}

proof fn lemma_drawn_is_well_named(root: TreeView, source: TreeView)
    requires
        well_named(source),
        drawn(root, source),
    ensures
        well_named(root),
{
    assert forall|name: Seq<char>| name != "project"@ implies match #[trigger] child(root, name) {
        Some(value) => is_name(name) && plainly_named(value),
        None => true,
    } by {
        if let Some(value) = child(root, name) {
            lemma_child_is_drawn(root, source, name);
            lemma_drawn_is_plain(value, child(source, name)->0);
        }
    }
    assert forall|name: Seq<char>| match #[trigger] project_tree(root, name) {
        Some(own) => plainly_named(own),
        None => true,
    } by {
        lemma_own(root, name);
        lemma_own(source, name);
        if let Some(own) = project_tree(root, name) {
            let projects = child(root, "project"@)->0;
            lemma_child_is_drawn(root, source, "project"@);
            lemma_child_is_drawn(projects, child(source, "project"@)->0, name);
            assert(match project_tree(source, name) {
                Some(own) => plainly_named(own),
                None => true,
            });
            lemma_drawn_is_plain(own, project_tree(source, name)->0);
        }
    }
}

/// Whether the files that can be read are well named.
pub open spec fn is_tidy(store: Store) -> bool {
    &&& store.tree(false) matches Some(tree) ==> well_named(tree)
    &&& store.tree(true) matches Some(tree) ==> well_named(tree)
}

/// Where neither file is there yet, they are tidy.
pub proof fn law_new_stores_are_tidy(store: Store)
    requires
        store.says(false) is None,
        store.says(true) is None,
    ensures
        is_tidy(store),
{
    law_empty_files_are_well_named();
}

proof fn lemma_rewritten_is_tidy(
    text: Option<Seq<char>>,
    key: Seq<char>,
    project: Option<Seq<char>>,
    value: Option<Seq<char>>,
    new: Option<Seq<char>>,
)
    requires
        accepts(key),
        file_tree(text) matches Some(tree) && well_named(tree) && rewritten(
            text,
            changed(tree, key, project, value),
            value,
            new,
        ),
    ensures
        file_tree(new) matches Some(tree) ==> well_named(tree),
{
    let root = file_tree(text)->0;
    law_empty_files_are_well_named();
    lemma_changed_is_well_named(root, key, project, value);
    if text is Some || value is Some {
        if let Some(back) = file_tree(new) {
            lemma_drawn_is_well_named(back, changed(root, key, project, value));
        }
    }
}

/// Setting and unsetting keep the files tidy, whatever the key, the value and the outcome.
pub proof fn law_written_stores_are_tidy(
    before: Store,
    after: Store,
    first: bool,
    key: Seq<char>,
    project: Option<Seq<char>>,
    value: Option<Seq<char>>,
    r: Result<(), ConfigError>,
)
    requires
        is_tidy(before),
        accepts(key),
        before.writes(after, first, key, project, value, r),
    ensures
        is_tidy(after),
{
    if let Some(TreeView::Table(_)) = before.tree(first) {
        lemma_rewritten_is_tidy(before.says(first), key, project, value, after.says(first));
        if let Some(TreeView::Table(_)) = before.tree(!first) {
            lemma_rewritten_is_tidy(before.says(!first), key, project, None, after.says(!first));
        }
    }
}

/// What one step does to a store: a key that can be set is written, another is refused.
pub open spec fn is_step(
    before: Store,
    after: Store,
    first: bool,
    key: Seq<char>,
    project: Option<Seq<char>>,
    value: Option<Seq<char>>,
    r: Result<(), ConfigError>,
) -> bool {
    if accepts(key) {
        before.writes(after, first, key, project, value, r)
    } else {
        before.refuses(after, key, r)
    }
}

/// Whether a store is what setting gives of another, for some key, value, place and outcome.
pub open spec fn is_set(before: Store, after: Store) -> bool {
    exists|
        key: Seq<char>,
        value: Seq<char>,
        secret: bool,
        project: Option<Seq<char>>,
        r: Result<(), ConfigError>,
    |
        #[trigger] is_step(before, after, secret, key, project, Some(value), r)
}

/// Whether a store is what unsetting gives of another, for some key, place and outcome.
pub open spec fn is_unset(before: Store, after: Store) -> bool {
    exists|key: Seq<char>, project: Option<Seq<char>>, r: Result<(), ConfigError>|
        #[trigger] is_step(before, after, false, key, project, None, r)
}

/// Stores that come from one another by setting and unsetting alone, the first without files.
pub open spec fn is_history(stores: Seq<Store>) -> bool {
    &&& stores.len() > 0
    &&& stores[0].says(false) is None
    &&& stores[0].says(true) is None
    &&& forall|i: int|
        0 < i < stores.len() ==> is_set(stores[i - 1], #[trigger] stores[i]) || is_unset(
            stores[i - 1],
            stores[i],
        )
}

/// Files that were written by setting and unsetting alone are tidy.
pub proof fn law_histories_are_tidy(stores: Seq<Store>)
    requires
        is_history(stores),
    ensures
        is_tidy(stores.last()),
    decreases stores.len(),
{
    let n = stores.len() - 1;
    if n == 0 {
        law_new_stores_are_tidy(stores[0]);
    } else {
        let earlier = stores.drop_last();
        assert(is_history(earlier)) by {
            assert forall|i: int| 0 < i < earlier.len() implies is_set(
                earlier[i - 1],
                #[trigger] earlier[i],
            ) || is_unset(earlier[i - 1], earlier[i]) by {
                assert(earlier[i] == stores[i] && earlier[i - 1] == stores[i - 1]);
            }
        }
        law_histories_are_tidy(earlier);
        let before = stores[n - 1];
        let after = stores[n];
        assert(earlier.last() == before);
        if is_set(before, after) {
            let (key, value, secret, project, r) = choose|
                key: Seq<char>,
                value: Seq<char>,
                secret: bool,
                project: Option<Seq<char>>,
                r: Result<(), ConfigError>,
            |
                #[trigger] is_step(before, after, secret, key, project, Some(value), r);
            if accepts(key) {
                law_written_stores_are_tidy(before, after, secret, key, project, Some(value), r);
            }
        } else {
            let (key, project, r) = choose|
                key: Seq<char>,
                project: Option<Seq<char>>,
                r: Result<(), ConfigError>,
            |
                #[trigger] is_step(before, after, false, key, project, None, r);
            if accepts(key) {
                law_written_stores_are_tidy(before, after, false, key, project, None, r);
            }
        }
    }
}

/// Of tidy files, the list has a row for a key exactly where what is found of the key is not
/// inferred; its rows ascend by their keys, and are what is found of them.
pub proof fn law_lists_show_what_was_set(
    store: Store,
    project: Option<Seq<char>>,
    rows: Seq<(String, Hit)>,
    key: Seq<char>,
)
    requires
        is_tidy(store),
        store.tree(true) matches Some(secrets) && store.tree(false) matches Some(config)
            && is_list(secrets, config, project, rows),
        accepts(key),
    ensures
        ascends(row_keys(rows)),
        row_keys(rows).contains(key) <==> (store.found(key, project, inferred_of(key)) matches Some(
            Some(hit),
        ) && hit.scope != Scope::Inferred),
        forall|i: int|
            0 <= i < rows.len() ==> store.found(
                (#[trigger] rows[i]).0@,
                project,
                inferred_of(rows[i].0@),
            ) == Some(Some(rows[i].1@)),
{
    law_listed_settings_are_found(store.tree(true)->0, store.tree(false)->0, project, key);
}

/// Of files that were written by setting and unsetting alone, the list shows exactly what was set:
/// its rows ascend by their keys, each is what is found of its key, and a key that can be set has a
/// row exactly where what is found of it is not inferred.
pub proof fn law_lists_of_histories(
    stores: Seq<Store>,
    project: Option<Seq<char>>,
    rows: Seq<(String, Hit)>,
    key: Seq<char>,
)
    requires
        is_history(stores),
        stores.last().tree(true) matches Some(secrets) && stores.last().tree(false) matches Some(
            config,
        ) && is_list(secrets, config, project, rows),
        accepts(key),
    ensures
        ascends(row_keys(rows)),
        row_keys(rows).contains(key) <==> (stores.last().found(
            key,
            project,
            inferred_of(key),
        ) matches Some(Some(hit)) && hit.scope != Scope::Inferred),
        forall|i: int|
            0 <= i < rows.len() ==> stores.last().found(
                (#[trigger] rows[i]).0@,
                project,
                inferred_of(rows[i].0@),
            ) == Some(Some(rows[i].1@)),
{
    law_histories_are_tidy(stores);
    law_lists_show_what_was_set(stores.last(), project, rows, key);
}

} // verus!
