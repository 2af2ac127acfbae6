//! Values in values, as TOML and JSON hold them.

use crate::number::{decimal, signed, to_signed};
use crate::text::{
    before, glue3, lemma_before_total, lemma_before_transitive, precedes, same, view_opt, views,
};
use vstd::prelude::*;

verus! {

/// A value, with the values in it.
#[derive(Debug, PartialEq, Eq)]
pub enum Tree {
    Null,
    Text(String),
    Integer(i64),
    Boolean(bool),
    /// A number in writing.
    Number(String),
    /// A point in time in writing.
    Datetime(String),
    Array(Vec<Tree>),
    /// Named values; of two with one name the later counts.
    Table(Vec<(String, Tree)>),
}

/// What a value says.
#[verifier::ext_equal]
pub enum TreeView {
    Null,
    Text(Seq<char>),
    Integer(i64),
    Boolean(bool),
    Number(Seq<char>),
    Datetime(Seq<char>),
    Array(Seq<TreeView>),
    Table(Map<Seq<char>, TreeView>),
}

/// What the values of a list say.
pub open spec fn items_of(items: Seq<Tree>) -> Seq<TreeView>
    decreases items,
{
    if items.len() == 0 {
        seq![]
    } else {
        items_of(items.drop_last()).push(items.last().said())
    }
}

/// What named values say.
pub open spec fn table_of(entries: Seq<(String, Tree)>) -> Map<Seq<char>, TreeView>
    decreases entries,
{
    if entries.len() == 0 {
        Map::empty()
    } else {
        table_of(entries.drop_last()).insert(entries.last().0@, entries.last().1.said())
    }
}

impl Tree {
    /// What a value says.
    pub open spec fn said(self) -> TreeView
        decreases self,
    {
        match self {
            Tree::Null => TreeView::Null,
            Tree::Text(text) => TreeView::Text(text@),
            Tree::Integer(number) => TreeView::Integer(number),
            Tree::Boolean(flag) => TreeView::Boolean(flag),
            Tree::Number(text) => TreeView::Number(text@),
            Tree::Datetime(text) => TreeView::Datetime(text@),
            Tree::Array(items) => TreeView::Array(items_of(items@)),
            Tree::Table(entries) => TreeView::Table(table_of(entries@)),
        }
    }
}

impl View for Tree {
    type V = TreeView;

    open spec fn view(&self) -> TreeView {
        self.said()
    }
}

// Named values.

/// The value of a name in a table.
pub open spec fn child(tree: TreeView, name: Seq<char>) -> Option<TreeView> {
    match tree {
        TreeView::Table(table) => if table.dom().contains(name) {
            Some(table[name])
        } else {
            None
        },
        _ => None,
    }
}

/// The value at the end of a path of names.
pub open spec fn dug(tree: TreeView, path: Seq<Seq<char>>) -> Option<TreeView>
    decreases path.len(),
{
    if path.len() == 0 {
        Some(tree)
    } else {
        match child(tree, path[0]) {
            Some(next) => dug(next, path.skip(1)),
            None => None,
        }
    }
}

/// What may be said by a value that may be there.
pub open spec fn said_opt(tree: Option<&Tree>) -> Option<TreeView> {
    match tree {
        Some(tree) => Some(tree@),
        None => None,
    }
}

fn last_named(entries: &Vec<(String, Tree)>, name: &str) -> (r: Option<usize>)
    ensures
        match r {
            Some(i) => i < entries@.len() && table_of(entries@).dom().contains(name@)
                && table_of(entries@)[name@] == entries@[i as int].1@ && entries@[i as int].0@
                == name@ && is_last(entries@, i as int),
            None => !table_of(entries@).dom().contains(name@),
        },
{
    let mut i: usize = entries.len();
    let ghost all = table_of(entries@);
    assert(entries@.take(i as int) =~= entries@);
    while i > 0
        invariant
            i <= entries@.len(),
            all == table_of(entries@),
            all.dom().contains(name@) == table_of(entries@.take(i as int)).dom().contains(name@),
            all.dom().contains(name@) ==> all[name@] == table_of(entries@.take(i as int))[name@],
            forall|j: int| i <= j < entries@.len() ==> (#[trigger] entries@[j]).0@ != name@,
        decreases i,
    {
        let ghost now = entries@.take(i as int);
        assert(now.drop_last() =~= entries@.take(i - 1));
        assert(now.last() == entries@[i - 1]);
        if same(entries[i - 1].0.as_str(), name) {
            return Some(i - 1);
        }
        i -= 1;
    }
    None
}

impl Tree {
    /// The value of a name in a table.
    pub fn get(&self, name: &str) -> (r: Option<&Tree>)
        ensures
            said_opt(r) == child(self@, name@),
    {
        match self {
            Tree::Table(entries) => match last_named(entries, name) {
                Some(i) => Some(&entries[i].1),
                None => None,
            },
            _ => None,
        }
    }

    /// The text of a value that is one.
    pub fn as_text(&self) -> (r: Option<String>)
        ensures
            view_opt(r) == match self@ {
                TreeView::Text(text) => Some(text),
                _ => None,
            },
    {
        match self {
            Tree::Text(text) => Some(text.clone()),
            _ => None,
        }
    }
}

/// The value at the end of a path of names.
pub fn dig<'a>(tree: &'a Tree, path: &[String]) -> (r: Option<&'a Tree>)
    ensures
        said_opt(r) == dug(tree@, views(path@)),
{
    let n: usize = path.len();
    let ghost all = views(path@);
    let mut current = tree;
    assert(all.skip(0) =~= all);
    for i in 0..n
        invariant
            n == path@.len(),
            all == views(path@),
            dug(tree@, all) == dug(current@, all.skip(i as int)),
    {
        assert(all.skip(i as int)[0] == path@[i as int]@);
        assert(all.skip(i as int).skip(1) =~= all.skip(i + 1));
        match current.get(path[i].as_str()) {
            Some(next) => {
                current = next;
            },
            None => {
                return None;
            },
        }
    }
    Some(current)
}

/// A value that is no table and no list, in writing.
pub open spec fn shown(tree: TreeView) -> Option<Seq<char>> {
    match tree {
        TreeView::Text(text) => Some(text),
        TreeView::Integer(number) => Some(signed(number as int)),
        TreeView::Boolean(flag) => Some(
            if flag {
                "true"@
            } else {
                "false"@
            },
        ),
        TreeView::Number(text) => Some(text),
        TreeView::Datetime(text) => Some(text),
        TreeView::Null | TreeView::Array(_) | TreeView::Table(_) => None,
    }
}

/// A value that is no table and no list, in writing.
pub fn value_string(value: &Tree) -> (r: Option<String>)
    ensures
        view_opt(r) == shown(value@),
{
    match value {
        Tree::Text(text) => Some(text.clone()),
        Tree::Integer(number) => Some(to_signed(*number)),
        Tree::Boolean(flag) => Some(
            if *flag {
                "true".to_string()
            } else {
                "false".to_string()
            },
        ),
        Tree::Number(text) => Some(text.clone()),
        Tree::Datetime(text) => Some(text.clone()),
        Tree::Null | Tree::Array(_) | Tree::Table(_) => None,
    }
}

// Changes.

proof fn lemma_absent(entries: Seq<(String, Tree)>, name: Seq<char>)
    requires
        forall|j: int| 0 <= j < entries.len() ==> (#[trigger] entries[j]).0@ != name,
    ensures
        !table_of(entries).dom().contains(name),
    decreases entries.len(),
{
    if entries.len() > 0 {
        assert forall|j: int| 0 <= j < entries.drop_last().len() implies (
        #[trigger] entries.drop_last()[j]).0@ != name by {
            assert(entries.drop_last()[j] == entries[j]);
        }
        lemma_absent(entries.drop_last(), name);
    }
}

proof fn lemma_first_removed(entries: Seq<(String, Tree)>, i: int, name: Seq<char>)
    requires
        0 <= i < entries.len(),
        entries[i].0@ == name,
        forall|j: int| 0 <= j < i ==> (#[trigger] entries[j]).0@ != name,
    ensures
        table_of(entries).dom().contains(name),
        table_of(entries.remove(i)).remove(name) == table_of(entries).remove(name),
        if table_of(entries.remove(i)).dom().contains(name) {
            table_of(entries)[name] == table_of(entries.remove(i))[name]
        } else {
            table_of(entries)[name] == entries[i].1@
        },
    decreases entries.len(),
{
    let rest = entries.remove(i);
    if i == entries.len() - 1 {
        assert(rest =~= entries.drop_last());
        assert forall|j: int| 0 <= j < rest.len() implies (#[trigger] rest[j]).0@ != name by {
            assert(rest[j] == entries[j]);
        }
        lemma_absent(rest, name);
    } else {
        let first = entries.drop_last();
        assert forall|j: int| 0 <= j < i implies (#[trigger] first[j]).0@ != name by {
            assert(first[j] == entries[j]);
        }
        lemma_first_removed(first, i, name);
        assert(rest.drop_last() =~= first.remove(i));
        assert(rest.last() == entries.last());
        let a = table_of(first.remove(i));
        let b = table_of(first);
        assert forall|x: Seq<char>| x != name implies {
            &&& #[trigger] a.dom().contains(x) == b.dom().contains(x)
            &&& a.dom().contains(x) ==> a[x] == b[x]
        } by {
            assert(a.remove(name).dom().contains(x) == b.remove(name).dom().contains(x));
            if a.dom().contains(x) {
                assert(a.remove(name)[x] == b.remove(name)[x]);
            }
        }
        let last = entries.last();
        assert(table_of(rest) == a.insert(last.0@, last.1@));
        assert(table_of(entries) == b.insert(last.0@, last.1@));
    }
    assert(table_of(rest).remove(name) =~= table_of(entries).remove(name));
}

proof fn lemma_pushed(entries: Seq<(String, Tree)>, entry: (String, Tree))
    ensures
        table_of(entries.push(entry)) == table_of(entries).insert(entry.0@, entry.1@),
{
    assert(entries.push(entry).drop_last() =~= entries);
}

/// Takes a name out of a table, with its value.
fn take_named(table: Vec<(String, Tree)>, name: &str) -> (r: (Option<Tree>, Vec<(String, Tree)>))
    ensures
        table_of(r.1@) == table_of(table@).remove(name@),
        match r.0 {
            Some(value) => table_of(table@).dom().contains(name@) && table_of(table@)[name@]
                == value@,
            None => !table_of(table@).dom().contains(name@),
        },
{
    let mut entries = table;
    let mut found: Option<Tree> = None;
    let mut i: usize = 0;
    let ghost all = table_of(table@);
    while i < entries.len()
        invariant
            i <= entries@.len(),
            all == table_of(table@),
            forall|j: int| 0 <= j < i ==> (#[trigger] entries@[j]).0@ != name@,
            table_of(entries@).remove(name@) == all.remove(name@),
            if table_of(entries@).dom().contains(name@) {
                all.dom().contains(name@) && all[name@] == table_of(entries@)[name@]
            } else {
                match found {
                    Some(value) => all.dom().contains(name@) && all[name@] == value@,
                    None => !all.dom().contains(name@),
                }
            },
        decreases entries.len() - i,
    {
        if same(entries[i].0.as_str(), name) {
            proof {
                lemma_first_removed(entries@, i as int, name@);
            }
            let (_, value) = entries.remove(i);
            found = Some(value);
        } else {
            i += 1;
        }
    }
    proof {
        lemma_absent(entries@, name@);
        assert(table_of(entries@) =~= table_of(entries@).remove(name@));
    }
    (found, entries)
}

/// The table in a value; an empty one in what is none.
pub open spec fn as_table(value: Option<TreeView>) -> Map<Seq<char>, TreeView> {
    match value {
        Some(TreeView::Table(table)) => table,
        _ => Map::empty(),
    }
}

/// A table with a text at the end of a path, or with nothing there. The tables on the way are
/// made where they are missing, and take the place of what is no table.
pub open spec fn assigned(
    table: Map<Seq<char>, TreeView>,
    path: Seq<Seq<char>>,
    value: Option<Seq<char>>,
) -> Map<Seq<char>, TreeView>
    decreases path.len(),
{
    if path.len() == 0 {
        table
    } else if path.len() == 1 {
        match value {
            Some(text) => table.insert(path[0], TreeView::Text(text)),
            None => table.remove(path[0]),
        }
    } else {
        table.insert(
            path[0],
            TreeView::Table(
                assigned(as_table(child(TreeView::Table(table), path[0])), path.skip(1), value),
            ),
        )
    }
}

/// Puts a text at the end of a path, or takes away what is there.
pub fn assign(table: Vec<(String, Tree)>, path: &[String], value: Option<String>) -> (r: Vec<
    (String, Tree),
>)
    ensures
        table_of(r@) == assigned(table_of(table@), views(path@), view_opt(value)),
{
    assert(views(path@).skip(0) =~= views(path@));
    assign_from(table, path, 0, value)
}

fn assign_from(
    table: Vec<(String, Tree)>,
    path: &[String],
    from: usize,
    value: Option<String>,
) -> (r: Vec<(String, Tree)>)
    requires
        from <= path@.len(),
    ensures
        table_of(r@) == assigned(
            table_of(table@),
            views(path@).skip(from as int),
            view_opt(value),
        ),
    decreases path@.len() - from,
{
    let n: usize = path.len();
    if from == n {
        return table;
    }
    let ghost here = views(path@).skip(from as int);
    assert(here[0] == path@[from as int]@);
    let (old, mut rest) = take_named(table, path[from].as_str());
    let name = path[from].clone();
    if from == n - 1 {
        if let Some(text) = value {
            proof {
                lemma_pushed(rest@, (name, Tree::Text(text)));
            }
            rest.push((name, Tree::Text(text)));
            assert(table_of(rest@) =~= table_of(table@).insert(here[0], TreeView::Text(text@)));
        }
        return rest;
    }
    let inner = match old {
        Some(Tree::Table(inner)) => inner,
        _ => Vec::new(),
    };
    assert(table_of(inner@) == as_table(child(TreeView::Table(table_of(table@)), here[0])));
    let ghost deeper = views(path@).skip(from + 1);
    assert(here.skip(1) =~= deeper);
    let changed = assign_from(inner, path, from + 1, value);
    let ghost below = table_of(changed@);
    proof {
        lemma_pushed(rest@, (name, Tree::Table(changed)));
    }
    rest.push((name, Tree::Table(changed)));
    assert(table_of(rest@) =~= table_of(table@).insert(here[0], TreeView::Table(below)));
    rest
}

/// A path leads where its two halves lead, one after the other.
pub proof fn lemma_dug_further(tree: TreeView, a: Seq<Seq<char>>, b: Seq<Seq<char>>)
    ensures
        dug(tree, a + b) == match dug(tree, a) {
            Some(next) => dug(next, b),
            None => None,
        },
    decreases a.len(),
{
    if a.len() == 0 {
        assert(a + b =~= b);
    } else {
        assert((a + b)[0] == a[0]);
        assert((a + b).skip(1) =~= a.skip(1) + b);
        if let Some(next) = child(tree, a[0]) {
            lemma_dug_further(next, a.skip(1), b);
        }
    }
}

/// What is put at the end of a path is found there, and what is taken away is not.
pub proof fn law_assigned_values_are_found(
    table: Map<Seq<char>, TreeView>,
    path: Seq<Seq<char>>,
    value: Option<Seq<char>>,
)
    requires
        path.len() > 0,
    ensures
        dug(TreeView::Table(assigned(table, path, value)), path) == match value {
            Some(text) => Some(TreeView::Text(text)),
            None => None,
        },
    decreases path.len(),
{
    let tree = TreeView::Table(assigned(table, path, value));
    if path.len() == 1 {
        assert(child(tree, path[0]) == match value {
            Some(text) => Some(TreeView::Text(text)),
            None => None,
        });
        if let Some(next) = child(tree, path[0]) {
            assert(dug(next, path.skip(1)) == Some(next));
        }
    } else {
        let inner = as_table(child(TreeView::Table(table), path[0]));
        law_assigned_values_are_found(inner, path.skip(1), value);
        assert(child(tree, path[0]) == Some(
            TreeView::Table(assigned(inner, path.skip(1), value)),
        ));
    }
}

/// Neither path begins with the other.
pub open spec fn parts_ways(a: Seq<Seq<char>>, b: Seq<Seq<char>>) -> bool {
    exists|i: int| 0 <= i < a.len() && i < b.len() && #[trigger] a[i] != b[i]
}

/// What stands at the end of another path stays as it is.
pub proof fn law_other_values_stay(
    table: Map<Seq<char>, TreeView>,
    path: Seq<Seq<char>>,
    value: Option<Seq<char>>,
    other: Seq<Seq<char>>,
)
    requires
        parts_ways(path, other),
    ensures
        dug(TreeView::Table(assigned(table, path, value)), other) == dug(
            TreeView::Table(table),
            other,
        ),
    decreases path.len(),
{
    let before = TreeView::Table(table);
    let after = TreeView::Table(assigned(table, path, value));
    if path[0] != other[0] {
        assert(child(after, other[0]) == child(before, other[0]));
    } else {
        let i = choose|i: int| 0 <= i < path.len() && i < other.len() && #[trigger] path[i]
            != other[i];
        let a = path.skip(1);
        let b = other.skip(1);
        assert(a[i - 1] == path[i] && b[i - 1] == other[i]);
        let inner = as_table(child(before, path[0]));
        law_other_values_stay(inner, a, value, b);
        assert(child(after, other[0]) == Some(TreeView::Table(assigned(inner, a, value))));
        let nothing = TreeView::Table(Map::empty());
        assert(child(nothing, b[0]) is None);
        assert(dug(nothing, b) is None);
        match child(before, other[0]) {
            Some(TreeView::Table(table)) => {
                assert(inner == table);
                assert(dug(before, other) == dug(TreeView::Table(inner), b));
            },
            Some(next) => {
                assert(child(next, b[0]) is None);
                assert(dug(next, b) is None);
                assert(dug(before, other) is None);
            },
            None => {
                assert(dug(before, other) is None);
            },
        }
        assert(dug(after, other) == dug(TreeView::Table(assigned(inner, a, value)), b));
    }
}

// Keys.

/// The name of a value below others.
pub open spec fn below(prefix: Seq<char>, name: Seq<char>) -> Seq<char> {
    if prefix.len() == 0 {
        name
    } else {
        prefix + "."@ + name
    }
}

/// Whether a value in a table, or one in it, is listed under a key. The table of the projects is
/// left out of the global settings.
pub open spec fn entry_lists(
    name: Seq<char>,
    value: TreeView,
    prefix: Seq<char>,
    global: bool,
    key: Seq<char>,
) -> bool
    decreases value, 1nat,
{
    &&& !(prefix.len() == 0 && global && name == "project"@)
    &&& if value is Table {
        lists(value, below(prefix, name), global, key)
    } else {
        shown(value) is Some && key == below(prefix, name)
    }
}

/// Whether a value in a tree of tables is listed under a key.
pub open spec fn lists(tree: TreeView, prefix: Seq<char>, global: bool, key: Seq<char>) -> bool
    decreases tree, 0nat,
{
    match tree {
        TreeView::Table(table) => exists|name: Seq<char>| #[trigger]
            table.dom().contains(name) && entry_lists(name, table[name], prefix, global, key),
        _ => false,
    }
}

/// The last entry with its name.
spec fn is_last(entries: Seq<(String, Tree)>, i: int) -> bool {
    0 <= i < entries.len() && forall|j: int|
        i < j < entries.len() ==> (#[trigger] entries[j]).0@ != entries[i].0@
}

proof fn lemma_last(entries: Seq<(String, Tree)>, i: int)
    requires
        is_last(entries, i),
    ensures
        table_of(entries).dom().contains(entries[i].0@),
        table_of(entries)[entries[i].0@] == entries[i].1@,
    decreases entries.len(),
{
    if i < entries.len() - 1 {
        let first = entries.drop_last();
        assert(entries[entries.len() - 1].0@ != entries[i].0@);
        assert(first[i] == entries[i]);
        assert forall|j: int| i < j < first.len() implies (#[trigger] first[j]).0@
            != first[i].0@ by {
            assert(first[j] == entries[j]);
        }
        lemma_last(first, i);
    }
}

proof fn lemma_has_last(entries: Seq<(String, Tree)>, name: Seq<char>) -> (i: int)
    requires
        table_of(entries).dom().contains(name),
    ensures
        is_last(entries, i),
        entries[i].0@ == name,
    decreases entries.len(),
{
    if entries.last().0@ == name {
        entries.len() - 1
    } else {
        let first = entries.drop_last();
        let i = lemma_has_last(first, name);
        assert(first[i] == entries[i]);
        assert forall|j: int| i < j < entries.len() implies (#[trigger] entries[j]).0@
            != entries[i].0@ by {
            if j < first.len() {
                assert(first[j] == entries[j]);
            }
        }
        i
    }
}

/// In the order of the characters, each once.
pub open spec fn ascends(keys: Seq<Seq<char>>) -> bool {
    forall|i: int, j: int| 0 <= i < j < keys.len() ==> before(#[trigger] keys[i], #[trigger] keys[j])
}

/// Adds a key to a list in order.
fn add_key(list: Vec<String>, key: String) -> (r: Vec<String>)
    requires
        ascends(views(list@)),
    ensures
        ascends(views(r@)),
        forall|x: Seq<char>| #[trigger]
            views(r@).contains(x) <==> views(list@).contains(x) || x == key@,
{
    let mut keys = list;
    let n: usize = keys.len();
    let ghost old_keys = views(keys@);
    let mut at: usize = 0;
    while at < n && precedes(keys[at].as_str(), key.as_str())
        invariant
            at <= n == keys@.len(),
            old_keys == views(keys@),
            forall|i: int| 0 <= i < at ==> before(#[trigger] old_keys[i], key@),
        decreases n - at,
    {
        assert(old_keys[at as int] == keys@[at as int]@);
        at += 1;
    }
    if at < n && same(keys[at].as_str(), key.as_str()) {
        assert(old_keys[at as int] == key@);
        assert forall|x: Seq<char>| #[trigger] views(keys@).contains(x) <==> views(
            list@,
        ).contains(x) || x == key@ by {
            if x == key@ {
                assert(old_keys[at as int] == x);
            }
        }
        return keys;
    }
    let ghost added = key@;
    keys.insert(at, key);
    proof {
        let new = views(keys@);
        assert(new =~= old_keys.insert(at as int, added));
        if at < n {
            lemma_before_total(old_keys[at as int], added);
            assert(before(added, old_keys[at as int]));
        }
        assert forall|i: int, j: int| 0 <= i < j < new.len() implies before(
            #[trigger] new[i],
            #[trigger] new[j],
        ) by {
            if j < at {
                assert(new[i] == old_keys[i] && new[j] == old_keys[j]);
            } else if j == at {
                assert(new[i] == old_keys[i]);
            } else {
                assert(new[j] == old_keys[j - 1]);
                if i < at {
                    assert(new[i] == old_keys[i]);
                } else if i > at {
                    assert(new[i] == old_keys[i - 1]);
                } else if j - 1 > at {
                    assert(before(old_keys[at as int], old_keys[j - 1]));
                    lemma_before_transitive(added, old_keys[at as int], old_keys[j - 1]);
                }
            }
        }
        assert forall|x: Seq<char>| #[trigger] new.contains(x) <==> old_keys.contains(x) || x
            == added by {
            if new.contains(x) {
                let i = choose|i: int| 0 <= i < new.len() && new[i] == x;
                if i < at {
                    assert(old_keys[i] == x);
                } else if i > at {
                    assert(old_keys[i - 1] == x);
                }
            }
            if old_keys.contains(x) {
                let i = choose|i: int| 0 <= i < old_keys.len() && old_keys[i] == x;
                if i < at {
                    assert(new[i] == x);
                } else {
                    assert(new[i + 1] == x);
                }
            }
            assert(new[at as int] == added);
        }
    }
    keys
}

/// Adds the keys of the values in a tree of tables to a list in order.
pub fn collect_keys(tree: &Tree, prefix: &str, global: bool, keys: Vec<String>) -> (r: Vec<
    String,
>)
    requires
        ascends(views(keys@)),
    ensures
        ascends(views(r@)),
        forall|x: Seq<char>| #[trigger]
            views(r@).contains(x) <==> views(keys@).contains(x) || lists(
                tree@,
                prefix@,
                global,
                x,
            ),
    decreases *tree,
{
    let entries = match tree {
        Tree::Table(entries) => entries,
        _ => {
            return keys;
        },
    };
    let n: usize = entries.len();
    let ghost start = views(keys@);
    let ghost table = table_of(entries@);
    let mut out = keys;
    for i in 0..n
        invariant
            n == entries@.len(),
            *tree == Tree::Table(*entries),
            table == table_of(entries@),
            ascends(views(out@)),
            forall|x: Seq<char>| #[trigger]
                views(out@).contains(x) <==> start.contains(x) || exists|j: int|
                    0 <= j < i && #[trigger] is_last(entries@, j) && entry_lists(
                        entries@[j].0@,
                        entries@[j].1@,
                        prefix@,
                        global,
                        x,
                    ),
    {
        let ghost had = views(out@);
        let name = entries[i].0.as_str();
        let last = match last_named(entries, name) {
            Some(j) => i == j,
            None => false,
        };
        assert(last == is_last(entries@, i as int)) by {
            if is_last(entries@, i as int) {
                lemma_last(entries@, i as int);
            }
        }
        if last && !(prefix.is_empty() && global && same(name, "project")) {
            let path = if prefix.is_empty() {
                name.to_string()
            } else {
                glue3(prefix, ".", name)
            };
            assert(path@ == below(prefix@, name@));
            let value = &entries[i].1;
            proof {
                assert(decreases_to!(*tree => tree->Table_0));
                assert(decreases_to!(tree->Table_0 => entries@));
                assert(decreases_to!(entries@ => entries@[i as int]));
                assert(decreases_to!(entries@[i as int] => entries@[i as int].1));
            }
            if let Tree::Table(_) = value {
                out = collect_keys(value, path.as_str(), global, out);
            } else if value_string(value).is_some() {
                out = add_key(out, path);
            }
        }
        proof {
            assert forall|x: Seq<char>| #[trigger]
                views(out@).contains(x) <==> start.contains(x) || exists|j: int|
                    0 <= j < i + 1 && #[trigger] is_last(entries@, j) && entry_lists(
                        entries@[j].0@,
                        entries@[j].1@,
                        prefix@,
                        global,
                        x,
                    ) by {
                let here = is_last(entries@, i as int) && entry_lists(
                    entries@[i as int].0@,
                    entries@[i as int].1@,
                    prefix@,
                    global,
                    x,
                );
                assert(views(out@).contains(x) <==> had.contains(x) || here);
            }
        }
    }
    proof {
        assert forall|x: Seq<char>| #[trigger] views(out@).contains(x) <==> start.contains(x)
            || lists(tree@, prefix@, global, x) by {
            if lists(tree@, prefix@, global, x) {
                let name = choose|name: Seq<char>| #[trigger]
                    table.dom().contains(name) && entry_lists(
                        name,
                        table[name],
                        prefix@,
                        global,
                        x,
                    );
                let j = lemma_has_last(entries@, name);
                lemma_last(entries@, j);
            }
            if exists|j: int|
                0 <= j < n && #[trigger] is_last(entries@, j) && entry_lists(
                    entries@[j].0@,
                    entries@[j].1@,
                    prefix@,
                    global,
                    x,
                ) {
                let j = choose|j: int|
                    0 <= j < n && #[trigger] is_last(entries@, j) && entry_lists(
                        entries@[j].0@,
                        entries@[j].1@,
                        prefix@,
                        global,
                        x,
                    );
                lemma_last(entries@, j);
                assert(table.dom().contains(entries@[j].0@));
            }
        }
    }
    out
}

// Values in writing.

/// Texts are shown as they are, whole numbers in decimal and truth values by name; lists, tables
/// and nothing at all are not shown.
pub proof fn law_values_are_shown_as_written(value: &Tree, r: Option<String>)
    requires
        call_ensures(value_string, (value,), r),
    ensures
        value matches Tree::Text(text) ==> (r matches Some(out) && out@ == text@),
        value matches Tree::Number(text) ==> (r matches Some(out) && out@ == text@),
        value matches Tree::Datetime(text) ==> (r matches Some(out) && out@ == text@),
        value matches Tree::Integer(n) ==> (r matches Some(out) && out@ == if *n < 0 {
            "-"@ + decimal((-*n) as nat)
        } else {
            decimal(*n as nat)
        }),
        *value == Tree::Boolean(true) ==> (r matches Some(out) && out@ == "true"@),
        *value == Tree::Boolean(false) ==> (r matches Some(out) && out@ == "false"@),
        value is Null || value is Array || value is Table ==> r is None,
{
    reveal_strlit("-");
    assert("-"@ =~= seq!['-']);
}

/// A path of names leads from a table to the value of the first, and on from there; of several
/// values of one name the last counts.
pub proof fn law_paths_lead_through_tables(
    tree: &Tree,
    path: &[String],
    r: Option<&Tree>,
    entries: Seq<(String, Tree)>,
    i: int,
)
    requires
        call_ensures(dig, (tree, path), r),
        tree matches Tree::Table(list) && list@ == entries,
        path@.len() > 0,
    ensures
        (forall|j: int|
            0 <= j < entries.len() ==> (#[trigger] entries[j]).0@ != path@[0]@) ==> r is None,
        path@.len() == 1 && 0 <= i < entries.len() && entries[i].0@ == path@[0]@ && (forall|j: int|
            i < j < entries.len() ==> (#[trigger] entries[j]).0@ != path@[0]@) ==> (
        r matches Some(found) && found@ == entries[i].1@),
{
    let all = views(path@);
    assert(all[0] == path@[0]@);
    if forall|j: int| 0 <= j < entries.len() ==> (#[trigger] entries[j]).0@ != path@[0]@ {
        lemma_absent(entries, path@[0]@);
    }
    if path@.len() == 1 && 0 <= i < entries.len() && entries[i].0@ == path@[0]@ && (forall|j: int|
        i < j < entries.len() ==> (#[trigger] entries[j]).0@ != path@[0]@) {
        lemma_last(entries, i);
        reveal_with_fuel(dug, 2);
    }
}

/// What is no table has nothing below it, and a path goes on from where its first name leads.
pub proof fn law_paths_go_on(
    tree: &Tree,
    path: &[String],
    first: &[String],
    rest: &[String],
    r: Option<&Tree>,
    next: Option<&Tree>,
    end: Option<&Tree>,
)
    requires
        path@ == first@ + rest@,
        call_ensures(dig, (tree, path), r),
        call_ensures(dig, (tree, first), next),
        next matches Some(t) ==> call_ensures(dig, (t, rest), end),
    ensures
        next is None ==> r is None,
        next is Some && end is None ==> r is None,
        next is Some && end is Some ==> (r matches Some(found) && found@ == end->0@),
        path@.len() > 0 && !(tree is Table) ==> r is None,
{
    assert(views(path@) =~= views(first@) + views(rest@));
    lemma_dug_further(tree@, views(first@), views(rest@));
}

} // verus!
