//! Reading and writing TOML and JSON.

use crate::number::signed;
use crate::text::trimmed;
use crate::tree::{as_table, assigned, child, Tree, TreeView};
use serde_json::Value as Json;
use toml::Value as Toml;
use vstd::prelude::*;

verus! {

/// `toml::Value`: a value of TOML, which is carried and not looked into.
#[verifier::external_type_specification]
#[verifier::external_body]
pub struct ExTomlValue(toml::Value);

/// `toml::de::Error`: why a text is no TOML document.
#[verifier::external_type_specification]
#[verifier::external_body]
pub struct ExTomlReadError(toml::de::Error);

/// `toml::ser::Error`: why a value has no TOML document.
#[verifier::external_type_specification]
#[verifier::external_body]
pub struct ExTomlWriteError(toml::ser::Error);

/// `serde_json::Value`: a value of JSON, which is carried and not looked into.
#[verifier::external_type_specification]
#[verifier::external_body]
pub struct ExJsonValue(serde_json::Value);

/// `serde_json::Error`: why a text is no JSON, or a value has no text.
#[verifier::external_type_specification]
#[verifier::external_body]
pub struct ExJsonError(serde_json::Error);

// TOML.

/// The value that a TOML document holds, where it is one.
pub uninterp spec fn toml_value(text: Seq<char>) -> Option<TreeView>;

/// The TOML document of a value, in the pretty form, where there is one.
pub uninterp spec fn toml_text(tree: TreeView) -> Option<Seq<char>>;

/// Whether a value occurs in another.
pub open spec fn holds(tree: TreeView, leaf: TreeView) -> bool
    decreases tree,
{
    tree == leaf || match tree {
        TreeView::Array(items) => exists|i: int|
            0 <= i < items.len() && holds(#[trigger] items[i], leaf),
        TreeView::Table(table) => exists|name: Seq<char>|
            table.dom().contains(name) && holds(#[trigger] table[name], leaf),
        _ => false,
    }
}

/// Whether some TOML document holds a value.
pub open spec fn occurs(leaf: TreeView) -> bool {
    exists|text: Seq<char>|
        (#[trigger] toml_value(text)) matches Some(tree) && holds(tree, leaf)
}

/// Whether all numbers and times in a value are such as documents hold.
pub open spec fn told(tree: TreeView) -> bool {
    forall|leaf: TreeView| #[trigger]
        holds(tree, leaf) && (leaf is Number || leaf is Datetime) ==> occurs(leaf)
}

/// Values that can stand behind an equals sign: no null, no name that the format has for itself,
/// and no more than so many tables and lists in one another.
pub open spec fn nests(tree: TreeView, depth: nat) -> bool
    decreases tree,
{
    match tree {
        TreeView::Null => false,
        TreeView::Array(items) => depth > 0 && forall|i: int|
            0 <= i < items.len() ==> nests(#[trigger] items[i], (depth - 1) as nat),
        TreeView::Table(table) => depth > 0 && forall|name: Seq<char>|
            #![trigger table[name]]
            #![trigger table.dom().contains(name)]
            table.dom().contains(name) ==> name != "$__toml_private_datetime"@ && nests(
                table[name],
                (depth - 1) as nat,
            ),
        _ => true,
    }
}

/// A list that is written as tables under a heading each.
pub open spec fn is_table_list(items: Seq<TreeView>) -> bool {
    items.len() > 0 && forall|i: int| 0 <= i < items.len() ==> (#[trigger] items[i]) is Table
}

/// Values of a document: tables, and lists of nothing but tables, stand under headings, so many
/// of them in one another; whatever else there is stands behind an equals sign, where the format
/// takes eighty tables and lists in one another.
pub open spec fn shaped(tree: TreeView, depth: nat) -> bool
    decreases tree,
{
    match tree {
        TreeView::Table(table) => depth > 0 && forall|name: Seq<char>|
            #![trigger table[name]]
            #![trigger table.dom().contains(name)]
            table.dom().contains(name) ==> name != "$__toml_private_datetime"@ && shaped(
                table[name],
                (depth - 1) as nat,
            ),
        TreeView::Array(items) => if is_table_list(items) {
            forall|i: int| 0 <= i < items.len() ==> shaped(#[trigger] items[i], depth)
        } else {
            nests(tree, 80)
        },
        _ => nests(tree, 80),
    }
}

/// A document that TOML keeps: a heading has no more than eighty names, which the tables below
/// the outermost have.
pub open spec fn kept(tree: TreeView) -> bool {
    tree is Table && shaped(tree, 81) && told(tree)
}

/// A document that was read is kept by the format, if it is in shape.
pub proof fn law_documents_that_were_read_are_kept(text: Seq<char>)
    requires
        toml_value(text) matches Some(tree) && tree is Table && shaped(tree, 81),
    ensures
        toml_value(text) matches Some(tree) && kept(tree),
{
}

proof fn lemma_assigned_holds(
    table: Map<Seq<char>, TreeView>,
    path: Seq<Seq<char>>,
    value: Option<Seq<char>>,
    leaf: TreeView,
)
    requires
        path.len() > 0,
        holds(TreeView::Table(assigned(table, path, value)), leaf),
        leaf is Number || leaf is Datetime,
    ensures
        holds(TreeView::Table(table), leaf),
    decreases path.len(),
{
    let new = assigned(table, path, value);
    let name = choose|name: Seq<char>|
        new.dom().contains(name) && holds(#[trigger] new[name], leaf);
    if name != path[0] {
        assert(table.dom().contains(name) && holds(table[name], leaf));
    } else if path.len() > 1 {
        let inner = as_table(child(TreeView::Table(table), path[0]));
        lemma_assigned_holds(inner, path.skip(1), value, leaf);
        assert(table.dom().contains(name) && holds(table[name], leaf));
    }
}

proof fn lemma_assigned_is_shaped(
    table: Map<Seq<char>, TreeView>,
    path: Seq<Seq<char>>,
    value: Option<Seq<char>>,
    depth: nat,
)
    requires
        shaped(TreeView::Table(table), depth),
        0 < path.len() <= depth,
        !path.contains("$__toml_private_datetime"@),
    ensures
        shaped(TreeView::Table(assigned(table, path, value)), depth),
    decreases path.len(),
{
    let new = assigned(table, path, value);
    let inner_depth = (depth - 1) as nat;
    assert(path.contains(path[0]));
    if path.len() > 1 {
        let inner = as_table(child(TreeView::Table(table), path[0]));
        let nothing = TreeView::Table(Map::empty());
        assert(shaped(nothing, inner_depth));
        if let Some(TreeView::Table(t)) = child(TreeView::Table(table), path[0]) {
            assert(shaped(table[path[0]], inner_depth));
        }
        assert forall|name: Seq<char>| path.skip(1).contains(name) implies path.contains(
            name,
        ) by {
            let i = choose|i: int| 0 <= i < path.skip(1).len() && path.skip(1)[i] == name;
            assert(path[i + 1] == name);
        }
        lemma_assigned_is_shaped(inner, path.skip(1), value, inner_depth);
    } else if let Some(text) = value {
        assert(shaped(TreeView::Text(text), inner_depth));
    }
    assert forall|name: Seq<char>| new.dom().contains(name) implies name
        != "$__toml_private_datetime"@ && shaped(#[trigger] new[name], inner_depth) by {
        if name != path[0] {
            assert(table.dom().contains(name) && new[name] == table[name]);
        }
    }
}

/// A document that is kept by the format still is with a text put in, or something taken out.
pub proof fn law_changed_documents_are_kept(
    table: Map<Seq<char>, TreeView>,
    path: Seq<Seq<char>>,
    value: Option<Seq<char>>,
)
    requires
        kept(TreeView::Table(table)),
        0 < path.len() <= 81,
        !path.contains("$__toml_private_datetime"@),
    ensures
        kept(TreeView::Table(assigned(table, path, value))),
{
    let new = TreeView::Table(assigned(table, path, value));
    lemma_assigned_is_shaped(table, path, value, 81);
    assert forall|leaf: TreeView| #[trigger]
        holds(new, leaf) && (leaf is Number || leaf is Datetime) implies occurs(leaf) by {
        lemma_assigned_holds(table, path, value, leaf);
    }
}

/// A text that reads back as a document, and is blank only where the document holds nothing.
pub open spec fn tells(text: Seq<char>, tree: TreeView) -> bool {
    &&& toml_value(text) == Some(tree)
    &&& trimmed(text).len() == 0 ==> tree == TreeView::Table(Map::empty())
}

/// Whether the tables of a value have only names that another has in the same places.
pub open spec fn drawn(tree: TreeView, source: TreeView) -> bool
    decreases tree,
{
    match tree {
        TreeView::Table(table) => source matches TreeView::Table(from) && forall|name: Seq<char>|
            #![trigger table[name]]
            #![trigger table.dom().contains(name)]
            table.dom().contains(name) ==> from.dom().contains(name) && drawn(
                table[name],
                from[name],
            ),
        _ => true,
    }
}

/// A value of the `toml` crate, part for part; numbers with a fraction and points in time are
/// kept in writing.
#[verifier::external_body]
fn from_toml(value: Toml) -> Tree {
    match value {
        Toml::String(text) => Tree::Text(text),
        Toml::Integer(number) => Tree::Integer(number),
        Toml::Float(number) => Tree::Number(number.to_string()),
        Toml::Boolean(flag) => Tree::Boolean(flag),
        Toml::Datetime(stamp) => Tree::Datetime(stamp.to_string()),
        Toml::Array(items) => Tree::Array(items.into_iter().map(from_toml).collect()),
        Toml::Table(table) => Tree::Table(
            table.into_iter().map(|(name, item)| (name, from_toml(item))).collect(),
        ),
    }
}

/// A value for the `toml` crate, part for part: the inverse of [`from_toml`]. What TOML has no
/// place for becomes its writing.
#[verifier::external_body]
fn to_toml(tree: &Tree) -> Toml {
    match tree {
        Tree::Null => "".into(),
        Tree::Text(text) => text.as_str().into(),
        Tree::Integer(number) => Toml::Integer(*number),
        Tree::Boolean(flag) => Toml::Boolean(*flag),
        Tree::Number(text) => text.parse().map(Toml::Float).unwrap_or(text.as_str().into()),
        Tree::Datetime(text) => text.parse().map(Toml::Datetime).unwrap_or(text.as_str().into()),
        Tree::Array(items) => Toml::Array(items.iter().map(to_toml).collect()),
        Tree::Table(entries) => Toml::Table(
            entries.iter().map(|(name, item)| (name.clone(), to_toml(item))).collect(),
        ),
    }
}

/// `toml::from_str::<toml::Value>`: what a document holds depends on its text alone.
#[verifier::external_body]
pub(crate) fn read_toml(text: &str) -> (r: Result<Tree, toml::de::Error>)
    ensures
        match r {
            Ok(tree) => toml_value(text@) == Some(tree@),
            Err(_) => toml_value(text@) is None,
        },
{
    toml::from_str::<toml::Value>(text).map(from_toml)
}

/// `toml::to_string_pretty`: the document of a value depends on the value alone. A document
/// that TOML keeps is always written, reads back as the same value, and is blank only where it
/// holds nothing. Any other document may be one that cannot be read, or whose tables with the
/// name of the format's own are read as points in time; but no table is read back with a name
/// that the document has not in the same place.
#[verifier::external_body]
pub(crate) fn write_toml(tree: &Tree) -> (r: Result<String, toml::ser::Error>)
    ensures
        match r {
            Ok(text) => {
                &&& toml_text(tree@) == Some(text@)
                &&& kept(tree@) ==> tells(text@, tree@)
                &&& tree@ is Table ==> (toml_value(text@) matches Some(back) ==> drawn(
                    back,
                    tree@,
                ))
            },
            Err(_) => toml_text(tree@) is None && !kept(tree@),
        },
{
    toml::to_string_pretty(&to_toml(tree))
}

// JSON.

/// The value that a JSON text holds, where it is one.
pub uninterp spec fn json_value(text: Seq<char>) -> Option<TreeView>;

/// The JSON text of a value, on one line, where there is one.
pub uninterp spec fn json_text(tree: TreeView) -> Option<Seq<char>>;

/// The JSON text of a value, on several lines, where there is one.
pub uninterp spec fn json_pretty(tree: TreeView) -> Option<Seq<char>>;

/// Values that JSON keeps: whole numbers as they are written, no point in time, and no more than
/// so many tables and lists in one another.
pub open spec fn json_keeps(tree: TreeView, depth: nat) -> bool
    decreases tree,
{
    match tree {
        TreeView::Null | TreeView::Text(_) | TreeView::Boolean(_) => true,
        TreeView::Integer(_) | TreeView::Datetime(_) => false,
        TreeView::Number(text) => exists|n: int|
            i64::MIN <= n <= u64::MAX && text == #[trigger] signed(n),
        TreeView::Array(items) => depth > 0 && forall|i: int|
            0 <= i < items.len() ==> json_keeps(#[trigger] items[i], (depth - 1) as nat),
        TreeView::Table(table) => depth > 0 && forall|name: Seq<char>|
            #![trigger table[name]]
            #![trigger table.dom().contains(name)]
            table.dom().contains(name) ==> json_keeps(table[name], (depth - 1) as nat),
    }
}

/// A text that reads back as a value, with or without the end of a line behind it.
pub open spec fn json_tells(text: Seq<char>, tree: TreeView) -> bool {
    json_value(text) == Some(tree) && json_value(text + "\n"@) == Some(tree)
}

/// A value of the `serde_json` crate, part for part; numbers are kept in writing.
#[verifier::external_body]
fn from_json(value: Json) -> Tree {
    match value {
        Json::Null => Tree::Null,
        Json::Bool(flag) => Tree::Boolean(flag),
        Json::Number(number) => Tree::Number(number.to_string()),
        Json::String(text) => Tree::Text(text),
        Json::Array(items) => Tree::Array(items.into_iter().map(from_json).collect()),
        Json::Object(table) => Tree::Table(
            table.into_iter().map(|(name, item)| (name, from_json(item))).collect(),
        ),
    }
}

/// A number for the `serde_json` crate, from its writing: a whole one where it fits, else the
/// nearest with a fraction (`serde_json::Number::from_f64`), so that a number that was read comes
/// back digit for digit.
#[verifier::external_body]
fn to_number(text: &str) -> Json {
    let whole = text.parse::<u64>().map(Json::from).or(text.parse::<i64>().map(Json::from));
    let nearest = text.parse().ok().and_then(serde_json::Number::from_f64).map(Json::Number);
    whole.ok().or(nearest).unwrap_or(text.into())
}

/// A value for the `serde_json` crate, part for part: the inverse of [`from_json`]. What JSON
/// has no place for becomes its writing.
#[verifier::external_body]
fn to_json(tree: &Tree) -> Json {
    match tree {
        Tree::Null => Json::Null,
        Tree::Text(text) | Tree::Datetime(text) => Json::String(text.clone()),
        Tree::Integer(number) => Json::from(*number),
        Tree::Boolean(flag) => Json::Bool(*flag),
        Tree::Number(text) => to_number(text),
        Tree::Array(items) => Json::Array(items.iter().map(to_json).collect()),
        Tree::Table(entries) => Json::Object(
            entries.iter().map(|(name, item)| (name.clone(), to_json(item))).collect(),
        ),
    }
}

/// `serde_json::from_str::<serde_json::Value>`: what a text holds depends on the text alone.
#[verifier::external_body]
pub(crate) fn read_json(text: &str) -> (r: Result<Tree, serde_json::Error>)
    ensures
        match r {
            Ok(tree) => json_value(text@) == Some(tree@),
            Err(_) => json_value(text@) is None,
        },
{
    serde_json::from_str::<serde_json::Value>(text).map(from_json)
}

/// `serde_json::to_string`: the text of a value depends on the value alone.
#[verifier::external_body]
pub(crate) fn write_json(tree: &Tree) -> (r: Result<String, serde_json::Error>)
    ensures
        match r {
            Ok(text) => json_text(tree@) == Some(text@),
            Err(_) => json_text(tree@) is None,
        },
{
    serde_json::to_string(&to_json(tree))
}

/// `serde_json::to_string_pretty`: the text of a value depends on the value alone. A value that
/// JSON keeps is always written and reads back as the same value, also with the end of a line
/// behind it.
#[verifier::external_body]
pub(crate) fn write_json_pretty(tree: &Tree) -> (r: Result<String, serde_json::Error>)
    ensures
        match r {
            Ok(text) => json_pretty(tree@) == Some(text@) && (json_keeps(tree@, 127)
                ==> json_tells(text@, tree@)),
            Err(_) => json_pretty(tree@) is None && !json_keeps(tree@, 127),
        },
{
    serde_json::to_string_pretty(&to_json(tree))
}

} // verus!
