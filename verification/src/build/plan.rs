//! The arguments, secrets and tags with which each image is built.

use crate::build::order::{build_order, has_cycle, is_build_order, BuildError};
use crate::compose::{bindings, EnvBinding};
use crate::text::{
    alnum, chars_of, cut_at, drop_end, drop_start, filled, find, first_filled, first_occurrence,
    first_some, glue, has_part, has_prefix, is_alnum, is_digit, is_space,
    law_lines_end_at_line_feeds, law_parts_end_at_separators, law_words_have_no_white_space,
    lemma_first_some, lemma_run_len, lemma_run_len_is, lemma_trimmed, lines, lines_of, listed,
    occurs_at, only, piece, run_len, same, split_once, strip_prefix, trim, trim_of, trimmed,
    trimmed_of, upto, view_opt, views, without_prefix, words, words_of,
};
use crate::vars::{held, pairs, Vars};
use vstd::prelude::*;

verus! {

// Names of build arguments and secrets.

/// A name: a letter or an underscore, then letters, digits and underscores.
pub open spec fn ident(s: Seq<char>) -> bool {
    &&& s.len() > 0
    &&& !is_digit(s[0])
    &&& forall|i: int| 0 <= i < s.len() ==> is_alnum(#[trigger] s[i]) || s[i] == '_'
}

/// Whether `name` is a name.
fn is_ident(name: &str) -> (r: bool)
    ensures
        r == ident(name@),
{
    let cs = chars_of(name);
    let n: usize = cs.len();
    if n == 0 || ('0' <= cs[0] && cs[0] <= '9') {
        return false;
    }
    for i in 0..n
        invariant
            n == cs@.len(),
            cs@ == name@,
            forall|j: int| 0 <= j < i ==> is_alnum(#[trigger] cs@[j]) || cs@[j] == '_',
    {
        if !alnum(cs[i]) && cs[i] != '_' {
            return false;
        }
    }
    true
}

/// The characters that end the name of a build argument.
pub open spec fn arg_end() -> spec_fn(char) -> bool {
    |c: char| c == '=' || c == ' ' || c == '\t'
}

/// The name of the build argument that a line of a Dockerfile declares.
pub open spec fn arg_name(line: Seq<char>) -> Option<Seq<char>> {
    match without_prefix(trimmed(line), "ARG "@) {
        Some(rest) => {
            let name = trimmed(rest.take(run_len(rest, arg_end()) as int));
            if ident(name) {
                Some(name)
            } else {
                None
            }
        },
        None => None,
    }
}

/// The values that are there, in order, each once.
pub open spec fn distinct(found: Seq<Option<Seq<char>>>) -> Seq<Seq<char>>
    decreases found.len(),
{
    if found.len() == 0 {
        seq![]
    } else {
        let earlier = distinct(found.drop_last());
        match found.last() {
            Some(name) => if earlier.contains(name) {
                earlier
            } else {
                earlier.push(name)
            },
            None => earlier,
        }
    }
}

/// The names of the build arguments that a Dockerfile declares.
pub open spec fn args_of(body: Seq<char>) -> Seq<Seq<char>> {
    distinct(lines_of(body).map_values(|line: Seq<char>| arg_name(line)))
}

proof fn lemma_distinct(found: Seq<Option<Seq<char>>>)
    ensures
        distinct(found).no_duplicates(),
        forall|name: Seq<char>| #[trigger]
            distinct(found).contains(name) <==> found.contains(Some(name)),
    decreases found.len(),
{
    if found.len() > 0 {
        let earlier = distinct(found.drop_last());
        lemma_distinct(found.drop_last());
        assert forall|name: Seq<char>| #[trigger] distinct(found).contains(name) implies found.contains(
            Some(name),
        ) by {
            if earlier.contains(name) {
                let i = choose|i: int| 0 <= i < found.len() - 1 && found.drop_last()[i] == Some(name);
                assert(found[i] == Some(name));
            } else {
                assert(found.last() == Some(name));
            }
        }
        assert forall|name: Seq<char>| found.contains(Some(name)) implies #[trigger] distinct(
            found,
        ).contains(name) by {
            let i = choose|i: int| 0 <= i < found.len() && found[i] == Some(name);
            if i < found.len() - 1 {
                assert(found.drop_last()[i] == Some(name));
                assert(earlier.contains(name));
                let j = choose|j: int| 0 <= j < earlier.len() && earlier[j] == name;
                assert(distinct(found)[j] == name);
            } else if !earlier.contains(name) {
                assert(distinct(found)[earlier.len() as int] == name);
            }
        }
    }
}

/// A Dockerfile declares the arguments that its lines name, each once.
pub proof fn law_args_are_declared_once(body: Seq<char>)
    ensures
        args_of(body).no_duplicates(),
        forall|name: Seq<char>| #[trigger]
            args_of(body).contains(name) <==> exists|i: int|
                0 <= i < lines_of(body).len() && arg_name(#[trigger] lines_of(body)[i]) == Some(
                    name,
                ),
{
    let found = lines_of(body).map_values(|line: Seq<char>| arg_name(line));
    lemma_distinct(found);
    assert forall|name: Seq<char>| #[trigger] args_of(body).contains(name) implies exists|i: int|
        0 <= i < lines_of(body).len() && arg_name(#[trigger] lines_of(body)[i]) == Some(name) by {
        let i = choose|i: int| 0 <= i < found.len() && found[i] == Some(name);
        assert(arg_name(lines_of(body)[i]) == Some(name));
    }
    assert forall|name: Seq<char>, i: int|
        0 <= i < lines_of(body).len() && arg_name(#[trigger] lines_of(body)[i]) == Some(
            name,
        ) implies #[trigger] args_of(body).contains(name) by {
        assert(found[i] == Some(name));
    }
}

fn line_arg(line: &str) -> (r: Option<String>)
    ensures
        view_opt(r) == arg_name(line@),
{
    let line = trim(line);
    let rest = match strip_prefix(line.as_str(), "ARG ") {
        Some(rest) => rest,
        None => {
            return None;
        },
    };
    let cs = chars_of(rest.as_str());
    let total: usize = cs.len();
    let ghost end = arg_end();
    let mut i: usize = 0;
    while i < total && cs[i] != '=' && cs[i] != ' ' && cs[i] != '\t'
        invariant
            i <= total == cs@.len(),
            end == arg_end(),
            forall|j: int| 0 <= j < i ==> !#[trigger] end(cs@[j]),
        decreases total - i,
    {
        i += 1;
    }
    proof {
        lemma_run_len_is(cs@, end, i as int);
    }
    let head = piece(cs.as_slice(), 0, i);
    assert(head@ =~= cs@.take(i as int));
    let name = trim(head.as_str());
    if is_ident(name.as_str()) {
        Some(name)
    } else {
        None
    }
}

/// The names of the build arguments that a Dockerfile declares, each once.
pub fn declared_args(body: &str) -> (r: Vec<String>)
    ensures
        views(r@) == args_of(body@),
{
    let all = lines(body);
    let ghost found = lines_of(body@).map_values(|line: Seq<char>| arg_name(line));
    let mut args: Vec<String> = Vec::new();
    let n: usize = all.len();
    assert(views(args@) =~= distinct(found.take(0)));
    for i in 0..n
        invariant
            n == all@.len(),
            views(all@) == lines_of(body@),
            found == lines_of(body@).map_values(|line: Seq<char>| arg_name(line)),
            views(args@) == distinct(found.take(i as int)),
    {
        let name = line_arg(all[i].as_str());
        proof {
            assert(views(all@)[i as int] == all@[i as int]@);
            assert(found.take(i + 1).drop_last() =~= found.take(i as int));
            assert(found.take(i + 1).last() == view_opt(name));
        }
        if let Some(name) = name {
            if !listed(args.as_slice(), name.as_str()) {
                let ghost before = views(args@);
                let ghost added = name@;
                args.push(name);
                assert(views(args@) =~= before.push(added));
            }
        }
    }
    assert(found.take(n as int) =~= found);
    args
}

// Values of build arguments.

/// The first of the process environment, the dotenv file and the computed values in which
/// `name` is not empty.
pub open spec fn merged(
    name: Seq<char>,
    proc: Map<Seq<char>, Seq<char>>,
    dotenv: Map<Seq<char>, Seq<char>>,
    computed: Map<Seq<char>, Seq<char>>,
) -> Option<Seq<char>> {
    first_some(
        seq![
            filled(held(proc, name)),
            filled(held(dotenv, name)),
            filled(held(computed, name)),
        ],
    )
}

/// The value of a build argument.
pub fn merged_value(name: &str, proc: &Vars, dotenv: &Vars, computed: &Vars) -> (r: Option<String>)
    ensures
        view_opt(r) == merged(name@, proc@, dotenv@, computed@),
{
    first_filled(proc.get(name), dotenv.get(name), computed.get(name))
}

// The prefix of the project's images.

/// The image that a line of a compose file names.
pub open spec fn image_of(line: Seq<char>) -> Option<Seq<char>> {
    match without_prefix(trimmed(line), "image:"@) {
        Some(rest) => filled(Some(trimmed_of(trimmed_of(trimmed(rest), '"'), '\''))),
        None => None,
    }
}

/// What may follow the name of a service in the name of its image.
pub open spec fn ends_service(after: Seq<char>) -> bool {
    after.len() == 0 || after[0] == ':' || after[0] == '@' || after[0] == '$' || after[0] == '}'
}

/// What stands before the service's name in an image that is the service's.
pub open spec fn service_prefix(image: Seq<char>, service: Seq<char>) -> Option<Seq<char>> {
    let needle = seq!['/'] + service;
    let at = choose|at: int| first_occurrence(image, needle, at);
    if has_part(image, needle) && at > 0 && ends_service(image.skip(at + needle.len())) {
        Some(image.take(at))
    } else {
        None
    }
}

/// The first word of a text, or the text where it has none.
pub open spec fn first_word(s: Seq<char>) -> Seq<char> {
    if words_of(s).len() > 0 {
        words_of(s)[0]
    } else {
        s
    }
}

/// The prefixes that an image shows for each of the services.
pub open spec fn service_prefixes(
    image: Seq<char>,
    services: Seq<Seq<char>>,
) -> Seq<Option<Seq<char>>> {
    services.map_values(|s: Seq<char>| service_prefix(image, s))
}

/// The prefix that an image shows for one of the services.
pub open spec fn prefix_in(image: Seq<char>, services: Seq<Seq<char>>) -> Option<Seq<char>> {
    first_some(service_prefixes(first_word(image), services))
}

/// The prefix that a line of a compose file shows.
pub open spec fn line_prefix(line: Seq<char>, services: Seq<Seq<char>>) -> Option<Seq<char>> {
    match image_of(line) {
        Some(image) => prefix_in(image, services),
        None => None,
    }
}

/// The prefixes that each line of a compose file shows.
pub open spec fn line_prefixes(
    lines: Seq<Seq<char>>,
    services: Seq<Seq<char>>,
) -> Seq<Option<Seq<char>>> {
    lines.map_values(|line: Seq<char>| line_prefix(line, services))
}

/// The prefix that the first line of a compose file to show one shows.
pub open spec fn text_prefix(text: Seq<char>, services: Seq<Seq<char>>) -> Option<Seq<char>> {
    first_some(line_prefixes(lines_of(text), services))
}

/// The prefixes that each compose file shows.
pub open spec fn text_prefixes(
    texts: Seq<Seq<char>>,
    services: Seq<Seq<char>>,
) -> Seq<Option<Seq<char>>> {
    texts.map_values(|text: Seq<char>| text_prefix(text, services))
}

/// The prefix that the first compose file to show one shows.
pub open spec fn prefix_of(texts: Seq<Seq<char>>, services: Seq<Seq<char>>) -> Seq<char> {
    match first_some(text_prefixes(texts, services)) {
        Some(prefix) => prefix,
        None => seq![],
    }
}

fn image_value(line: &str) -> (r: Option<String>)
    ensures
        view_opt(r) == image_of(line@),
{
    let line = trim(line);
    match strip_prefix(line.as_str(), "image:") {
        Some(rest) => {
            let value = trim(rest.as_str());
            let value = trim_of(value.as_str(), '"');
            let value = trim_of(value.as_str(), '\'');
            if value.as_str().is_empty() {
                None
            } else {
                Some(value)
            }
        },
        None => None,
    }
}

fn one_service_prefix(image: &str, service: &str) -> (r: Option<String>)
    ensures
        view_opt(r) == service_prefix(image@, service@),
{
    let mut needle = "/".to_string();
    needle.append(service);
    proof {
        reveal_strlit("/");
        assert(needle@ =~= seq!['/'] + service@);
    }
    match find(image, needle.as_str()) {
        Some(at) => {
            let cs = chars_of(image);
            let skipped = chars_of(needle.as_str());
            proof {
                let found = choose|at: int| first_occurrence(image@, needle@, at);
                assert(first_occurrence(image@, needle@, at as int));
                assert(found == at);
            }
            let total: usize = cs.len();
            assert(at + skipped@.len() <= total);
            let end: usize = at + skipped.len();
            let boundary = end == total || cs[end] == ':' || cs[end] == '@' || cs[end] == '$'
                || cs[end] == '}';
            if boundary && at > 0 {
                let prefix = piece(cs.as_slice(), 0, at);
                assert(prefix@ =~= image@.take(at as int));
                Some(prefix)
            } else {
                None
            }
        },
        None => None,
    }
}

fn prefix_for_service(image: &str, services: &[String]) -> (r: Option<String>)
    ensures
        view_opt(r) == prefix_in(image@, views(services@)),
{
    let all = words(image);
    let word = if all.len() > 0 { all[0].clone() } else { image.to_string() };
    let ghost found = service_prefixes(first_word(image@), views(services@));
    proof {
        if all@.len() > 0 {
            assert(views(all@)[0] == all@[0]@);
        }
    }
    let n: usize = services.len();
    for i in 0..n
        invariant
            n == services@.len(),
            word@ == first_word(image@),
            found == service_prefixes(word@, views(services@)),
            forall|j: int| 0 <= j < i ==> (#[trigger] found[j]) is None,
    {
        let prefix = one_service_prefix(word.as_str(), services[i].as_str());
        assert(found[i as int] == view_opt(prefix));
        if let Some(prefix) = prefix {
            proof {
                lemma_first_some(found, i as int);
            }
            return Some(prefix);
        }
    }
    proof {
        lemma_first_some(found, n as int);
    }
    None
}

fn prefix_in_line(line: &str, services: &[String]) -> (r: Option<String>)
    ensures
        view_opt(r) == line_prefix(line@, views(services@)),
{
    match image_value(line) {
        Some(image) => prefix_for_service(image.as_str(), services),
        None => None,
    }
}

fn prefix_in_text(text: &str, services: &[String]) -> (r: Option<String>)
    ensures
        view_opt(r) == text_prefix(text@, views(services@)),
{
    let all = lines(text);
    let n: usize = all.len();
    let ghost found = line_prefixes(lines_of(text@), views(services@));
    for i in 0..n
        invariant
            n == all@.len(),
            views(all@) == lines_of(text@),
            found == line_prefixes(lines_of(text@), views(services@)),
            forall|j: int| 0 <= j < i ==> (#[trigger] found[j]) is None,
    {
        let prefix = prefix_in_line(all[i].as_str(), services);
        proof {
            assert(views(all@)[i as int] == all@[i as int]@);
            assert(found[i as int] == view_opt(prefix));
        }
        if let Some(prefix) = prefix {
            proof {
                lemma_first_some(found, i as int);
            }
            return Some(prefix);
        }
    }
    proof {
        lemma_first_some(found, n as int);
    }
    None
}

/// The names of the compose files in the order in which the images' prefix is looked for.
pub fn compose_files(dev: bool) -> (r: Vec<String>)
    ensures
        views(r@) == if dev {
            seq!["compose.override.yml"@, "compose.yml"@, "compose.prod.yml"@]
        } else {
            seq!["compose.prod.yml"@, "compose.yml"@, "compose.override.yml"@]
        },
{
    if dev {
        vec![
            "compose.override.yml".to_string(),
            "compose.yml".to_string(),
            "compose.prod.yml".to_string(),
        ]
    } else {
        vec![
            "compose.prod.yml".to_string(),
            "compose.yml".to_string(),
            "compose.override.yml".to_string(),
        ]
    }
}

/// The prefix of the services' images: that of the first line of the compose files to show
/// one, or none. `texts` holds the files that there are, in the order of [`compose_files`].
pub fn image_prefix(texts: &[String], services: &[String]) -> (r: String)
    ensures
        r@ == prefix_of(views(texts@), views(services@)),
{
    let n: usize = texts.len();
    let ghost found = text_prefixes(views(texts@), views(services@));
    for i in 0..n
        invariant
            n == texts@.len(),
            found == text_prefixes(views(texts@), views(services@)),
            forall|j: int| 0 <= j < i ==> (#[trigger] found[j]) is None,
    {
        let prefix = prefix_in_text(texts[i].as_str(), services);
        proof {
            assert(views(texts@)[i as int] == texts@[i as int]@);
            assert(found[i as int] == view_opt(prefix));
        }
        if let Some(prefix) = prefix {
            proof {
                lemma_first_some(found, i as int);
            }
            return prefix;
        }
    }
    proof {
        lemma_first_some(found, n as int);
    }
    let none = String::new();
    assert(none@ =~= seq![]);
    none
}

// Secrets.

/// The assignment that a line of a secrets file makes: a name, and whatever follows the equals
/// sign.
pub open spec fn secret_of(line: Seq<char>) -> Option<(Seq<char>, Seq<char>)> {
    let text = trimmed(line);
    if text.len() == 0 || text[0] == '#' {
        None
    } else {
        match cut_at(text, '=') {
            Some((key, value)) => if ident(trimmed(key)) {
                Some((trimmed(key), value))
            } else {
                None
            },
            None => None,
        }
    }
}

/// The name of the secret that a line of a secrets file gives a value.
pub open spec fn secret_name(line: Seq<char>) -> Option<Seq<char>> {
    match secret_of(line) {
        Some((key, value)) => if value.len() > 0 {
            Some(key)
        } else {
            None
        },
        None => None,
    }
}

/// The names of the secrets that a secrets file gives values.
pub open spec fn secrets_of(text: Seq<char>) -> Seq<Seq<char>> {
    distinct(lines_of(text).map_values(|line: Seq<char>| secret_name(line)))
}

/// The assignments that a secrets file makes.
pub open spec fn secret_pairs(text: Seq<char>) -> Seq<(Seq<char>, Seq<char>)> {
    lines_of(text).filter_map(|line: Seq<char>| secret_of(line))
}

/// Of a secrets file, builds are told names alone: each once, and only those with a value.
pub proof fn law_secrets_are_told_by_name(text: Seq<char>)
    ensures
        secrets_of(text).no_duplicates(),
        forall|name: Seq<char>| #[trigger] secrets_of(text).contains(name) ==> ident(name),
        forall|name: Seq<char>| #[trigger]
            secrets_of(text).contains(name) <==> exists|i: int|
                0 <= i < lines_of(text).len() && secret_name(#[trigger] lines_of(text)[i]) == Some(
                    name,
                ),
{
    let found = lines_of(text).map_values(|line: Seq<char>| secret_name(line));
    lemma_distinct(found);
    assert forall|name: Seq<char>| #[trigger] secrets_of(text).contains(name) implies ident(name)
        && exists|i: int|
        0 <= i < lines_of(text).len() && secret_name(#[trigger] lines_of(text)[i]) == Some(
            name,
        ) by {
        let i = choose|i: int| 0 <= i < found.len() && found[i] == Some(name);
        assert(secret_name(lines_of(text)[i]) == Some(name));
    }
    assert forall|name: Seq<char>, i: int|
        0 <= i < lines_of(text).len() && secret_name(#[trigger] lines_of(text)[i]) == Some(
            name,
        ) implies #[trigger] secrets_of(text).contains(name) by {
        assert(found[i] == Some(name));
    }
}

proof fn lemma_secret_is_assigned(all: Seq<Seq<char>>, i: int)
    requires
        0 <= i < all.len(),
        secret_of(all[i]) is Some,
    ensures
        all.filter_map(|line: Seq<char>| secret_of(line)).contains(secret_of(all[i])->0),
    decreases all.len(),
{
    let read = |line: Seq<char>| secret_of(line);
    let rest = all.drop_last();
    let found = rest.filter_map(read);
    assert(all.take(all.len() as int) =~= all);
    assert(all.take(all.len() - 1) =~= rest);
    all.lemma_filter_map_take_succ(read, all.len() - 1);
    if i < rest.len() {
        lemma_secret_is_assigned(rest, i);
        let j = choose|j: int| 0 <= j < found.len() && found[j] == secret_of(all[i])->0;
        assert(all.filter_map(read)[j] == found[j]);
    } else {
        assert(all.filter_map(read)[found.len() as int] == secret_of(all[i])->0);
    }
}

/// Every secret that a build is told by name has a value in the environment of the build.
pub proof fn law_told_secrets_have_values(text: Seq<char>, name: Seq<char>)
    requires
        secrets_of(text).contains(name),
    ensures
        exists|value: Seq<char>|
            value.len() > 0 && #[trigger] secret_pairs(text).contains((name, value)),
{
    law_secrets_are_told_by_name(text);
    let all = lines_of(text);
    let i = choose|i: int| 0 <= i < all.len() && secret_name(#[trigger] all[i]) == Some(name);
    lemma_secret_is_assigned(all, i);
    assert(secret_pairs(text).contains((name, (secret_of(all[i])->0).1)));
}

fn secret_line(line: &str) -> (r: Option<(String, String)>)
    ensures
        match r {
            Some((key, value)) => secret_of(line@) == Some((key@, value@)),
            None => secret_of(line@) is None,
        },
{
    let text = trim(line);
    let cs = chars_of(text.as_str());
    if cs.len() == 0 || cs[0] == '#' {
        return None;
    }
    match split_once(text.as_str(), '=') {
        Some((key, value)) => {
            let key = trim(key.as_str());
            if is_ident(key.as_str()) {
                Some((key, value))
            } else {
                None
            }
        },
        None => None,
    }
}

/// The names of the secrets that a secrets file gives values, each once.
pub fn secret_names(text: &str) -> (r: Vec<String>)
    ensures
        views(r@) == secrets_of(text@),
{
    let all = lines(text);
    let ghost found = lines_of(text@).map_values(|line: Seq<char>| secret_name(line));
    let mut names: Vec<String> = Vec::new();
    let n: usize = all.len();
    assert(views(names@) =~= distinct(found.take(0)));
    for i in 0..n
        invariant
            n == all@.len(),
            views(all@) == lines_of(text@),
            found == lines_of(text@).map_values(|line: Seq<char>| secret_name(line)),
            views(names@) == distinct(found.take(i as int)),
    {
        let secret = secret_line(all[i].as_str());
        proof {
            assert(views(all@)[i as int] == all@[i as int]@);
            assert(found.take(i + 1).drop_last() =~= found.take(i as int));
            assert(found.take(i + 1).last() == secret_name(all@[i as int]@));
        }
        if let Some((key, value)) = secret {
            if !value.as_str().is_empty() && !listed(names.as_slice(), key.as_str()) {
                let ghost before = views(names@);
                let ghost added = key@;
                names.push(key);
                assert(views(names@) =~= before.push(added));
            }
        }
    }
    assert(found.take(n as int) =~= found);
    names
}

/// The assignments that a secrets file makes, for the environment of the builds.
pub fn secret_env(text: &str) -> (r: Vec<(String, String)>)
    ensures
        pairs(r@) == secret_pairs(text@),
{
    let all = lines(text);
    let ghost every = lines_of(text@);
    let ghost read = |line: Seq<char>| secret_of(line);
    let mut out: Vec<(String, String)> = Vec::new();
    let n: usize = all.len();
    proof {
        reveal(Seq::filter_map);
        assert(pairs(out@) =~= every.take(0).filter_map(read));
    }
    for i in 0..n
        invariant
            n == all@.len(),
            every == lines_of(text@),
            views(all@) == every,
            read == |line: Seq<char>| secret_of(line),
            pairs(out@) == every.take(i as int).filter_map(read),
    {
        let secret = secret_line(all[i].as_str());
        proof {
            assert(views(all@)[i as int] == all@[i as int]@);
            every.lemma_filter_map_take_succ(read, i as int);
        }
        let ghost before = pairs(out@);
        match secret {
            Some(pair) => {
                let ghost added = (pair.0@, pair.1@);
                out.push(pair);
                assert(pairs(out@) =~= before + seq![added]);
            },
            None => {
                assert(before + Seq::<(Seq<char>, Seq<char>)>::empty() =~= before);
            },
        }
    }
    assert(every.take(n as int) =~= every);
    out
}

// The plan.

/// How one image is built.
#[derive(Debug, Clone, PartialEq, Eq)]
pub struct ServicePlan {
    pub name: String,
    pub dockerfile: String,
    pub args: Vec<(String, String)>,
    pub secrets: Vec<String>,
    pub tag: String,
}

/// How the images of a project are built.
#[derive(Debug, Clone, PartialEq, Eq)]
pub struct BuildPlan {
    pub prefix: String,
    pub services: Vec<ServicePlan>,
}

/// The text of the first file of the service `name`.
pub open spec fn first_body(files: Seq<(Seq<char>, Seq<char>)>, name: Seq<char>) -> Seq<char>
    decreases files.len(),
{
    if files.len() == 0 {
        seq![]
    } else if files[0].0 == name {
        files[0].1
    } else {
        first_body(files.skip(1), name)
    }
}

/// The declared arguments that have a value, with it.
pub open spec fn chosen_args(
    declared: Seq<Seq<char>>,
    proc: Map<Seq<char>, Seq<char>>,
    dotenv: Map<Seq<char>, Seq<char>>,
    computed: Map<Seq<char>, Seq<char>>,
) -> Seq<(Seq<char>, Seq<char>)>
    decreases declared.len(),
{
    if declared.len() == 0 {
        seq![]
    } else {
        let earlier = chosen_args(declared.drop_last(), proc, dotenv, computed);
        match merged(declared.last(), proc, dotenv, computed) {
            Some(value) => earlier.push((declared.last(), value)),
            None => earlier,
        }
    }
}

/// A build gets the declared arguments that have a value, and no others.
pub proof fn law_builds_get_declared_args(
    declared: Seq<Seq<char>>,
    proc: Map<Seq<char>, Seq<char>>,
    dotenv: Map<Seq<char>, Seq<char>>,
    computed: Map<Seq<char>, Seq<char>>,
    name: Seq<char>,
    value: Seq<char>,
)
    ensures
        chosen_args(declared, proc, dotenv, computed).contains((name, value)) <==> (
        declared.contains(name) && merged(name, proc, dotenv, computed) == Some(value)),
    decreases declared.len(),
{
    let all = chosen_args(declared, proc, dotenv, computed);
    let wanted = declared.contains(name) && merged(name, proc, dotenv, computed) == Some(value);
    if declared.len() > 0 {
        let rest = declared.drop_last();
        let earlier = chosen_args(rest, proc, dotenv, computed);
        law_builds_get_declared_args(rest, proc, dotenv, computed, name, value);
        if all.contains((name, value)) {
            let i = choose|i: int| 0 <= i < all.len() && all[i] == (name, value);
            if i < earlier.len() {
                assert(earlier[i] == (name, value));
                let j = choose|j: int| 0 <= j < rest.len() && rest[j] == name;
                assert(declared[j] == name);
            } else {
                assert(declared[declared.len() - 1] == name);
            }
        }
        if wanted {
            let i = choose|i: int| 0 <= i < declared.len() && declared[i] == name;
            if i < declared.len() - 1 {
                assert(rest[i] == name);
                let j = choose|j: int| 0 <= j < earlier.len() && earlier[j] == (name, value);
                assert(all[j] == (name, value));
            } else {
                assert(all[all.len() - 1] == (name, value));
            }
        }
    }
}

/// The tag of the image of the service `name`.
pub open spec fn tag_of(prefix: Seq<char>, name: Seq<char>) -> Seq<char> {
    (if prefix.len() == 0 {
        name
    } else {
        prefix + "/"@ + name
    }) + ":latest"@
}

impl ServicePlan {
    /// The plan is that of the service `name` with the Dockerfile `body`.
    pub open spec fn is_for(
        self,
        name: Seq<char>,
        body: Seq<char>,
        prefix: Seq<char>,
        secrets: Seq<Seq<char>>,
        proc: Map<Seq<char>, Seq<char>>,
        dotenv: Map<Seq<char>, Seq<char>>,
        computed: Map<Seq<char>, Seq<char>>,
    ) -> bool {
        &&& self.name@ == name
        &&& self.dockerfile@ == name + ".Dockerfile"@
        &&& pairs(self.args@) == chosen_args(args_of(body), proc, dotenv, computed)
        &&& views(self.secrets@) == secrets
        &&& self.tag@ == tag_of(prefix, name)
    }
}

/// The names of the services of a plan, in order.
pub open spec fn planned(services: Seq<ServicePlan>) -> Seq<Seq<char>> {
    services.map_values(|s: ServicePlan| s.name@)
}

fn find_body(files: &[(String, String)], name: &str) -> (r: String)
    ensures
        r@ == first_body(pairs(files@), name@),
{
    let n: usize = files.len();
    let ghost all = pairs(files@);
    assert(all.skip(0) =~= all);
    for i in 0..n
        invariant
            n == files@.len(),
            all == pairs(files@),
            first_body(all, name@) == first_body(all.skip(i as int), name@),
    {
        assert(all.skip(i as int)[0] == all[i as int]);
        if same(files[i].0.as_str(), name) {
            return files[i].1.clone();
        }
        assert(all.skip(i as int).skip(1) =~= all.skip(i + 1));
    }
    let none = String::new();
    assert(none@ =~= seq![]);
    none
}

fn choose_args(body: &str, proc: &Vars, dotenv: &Vars, computed: &Vars) -> (r: Vec<
    (String, String),
>)
    ensures
        pairs(r@) == chosen_args(args_of(body@), proc@, dotenv@, computed@),
{
    let declared = declared_args(body);
    let ghost all = args_of(body@);
    let n: usize = declared.len();
    let mut args: Vec<(String, String)> = Vec::new();
    assert(pairs(args@) =~= chosen_args(all.take(0), proc@, dotenv@, computed@));
    for i in 0..n
        invariant
            n == declared@.len(),
            all == args_of(body@),
            views(declared@) == all,
            pairs(args@) == chosen_args(all.take(i as int), proc@, dotenv@, computed@),
    {
        let ghost before = pairs(args@);
        proof {
            assert(all[i as int] == declared@[i as int]@);
            assert(all.take(i + 1).drop_last() =~= all.take(i as int));
        }
        if let Some(value) = merged_value(declared[i].as_str(), proc, dotenv, computed) {
            let ghost added = (declared@[i as int]@, value@);
            args.push((declared[i].clone(), value));
            assert(pairs(args@) =~= before.push(added));
        }
    }
    assert(all.take(n as int) =~= all);
    args
}

fn image_tag(prefix: &str, name: &str) -> (r: String)
    ensures
        r@ == tag_of(prefix@, name@),
{
    let mut tag = prefix.to_string();
    if !prefix.is_empty() {
        tag.append("/");
    }
    tag.append(name);
    tag.append(":latest");
    assert(tag@ =~= tag_of(prefix@, name@));
    tag
}

/// The names of the services that have a Dockerfile, in the order of the files.
pub open spec fn service_names(files: Seq<(Seq<char>, Seq<char>)>) -> Seq<Seq<char>> {
    files.map_values(|f: (Seq<char>, Seq<char>)| f.0)
}

/// The plan of a project: its Dockerfiles by service, its compose files in the order of
/// [`compose_files`], where build arguments get their values, and the text of its secrets
/// file.
pub fn plan(
    files: &[(String, String)],
    composes: &[String],
    proc: &Vars,
    dotenv: &Vars,
    computed: &Vars,
    secrets: &str,
) -> (r: Result<BuildPlan, BuildError>)
    ensures
        r is Err <==> has_cycle(pairs(files@)),
        match r {
            Ok(plan) => {
                let all = pairs(files@);
                &&& plan.prefix@ == prefix_of(views(composes@), service_names(all))
                &&& is_build_order(all, planned(plan.services@))
                &&& forall|i: int|
                    0 <= i < plan.services@.len() ==> (#[trigger] plan.services@[i]).is_for(
                        planned(plan.services@)[i],
                        first_body(all, planned(plan.services@)[i]),
                        plan.prefix@,
                        secrets_of(secrets@),
                        proc@,
                        dotenv@,
                        computed@,
                    )
            },
            Err(e) => e == BuildError::Cycle,
        },
{
    let ghost all = pairs(files@);
    let order = match build_order(files) {
        Ok(order) => order,
        Err(e) => {
            return Err(e);
        },
    };
    let mut names: Vec<String> = Vec::new();
    let total: usize = files.len();
    for i in 0..total
        invariant
            total == files@.len(),
            all == pairs(files@),
            views(names@) == service_names(all).take(i as int),
    {
        let ghost before = views(names@);
        names.push(files[i].0.clone());
        assert(views(names@) =~= before.push(all[i as int].0));
        assert(service_names(all).take(i + 1) =~= service_names(all).take(i as int).push(
            all[i as int].0,
        ));
    }
    assert(service_names(all).take(total as int) =~= service_names(all));
    let prefix = image_prefix(composes, names.as_slice());
    let hidden = secret_names(secrets);
    let n: usize = order.len();
    let mut services: Vec<ServicePlan> = Vec::new();
    for i in 0..n
        invariant
            n == order@.len(),
            all == pairs(files@),
            services@.len() == i,
            views(hidden@) == secrets_of(secrets@),
            forall|j: int|
                0 <= j < i ==> (#[trigger] services@[j]).is_for(
                    order@[j]@,
                    first_body(all, order@[j]@),
                    prefix@,
                    secrets_of(secrets@),
                    proc@,
                    dotenv@,
                    computed@,
                ),
    {
        let name = order[i].as_str();
        let body = find_body(files, name);
        let args = choose_args(body.as_str(), proc, dotenv, computed);
        let mut dockerfile = name.to_string();
        dockerfile.append(".Dockerfile");
        let mut copied: Vec<String> = Vec::new();
        assert(views(copied@) =~= seq![]);
        crate::text::extend(&mut copied, hidden.as_slice());
        assert(views(copied@) =~= views(hidden@));
        services.push(
            ServicePlan {
                name: order[i].clone(),
                dockerfile,
                args,
                secrets: copied,
                tag: image_tag(prefix.as_str(), name),
            },
        );
    }
    proof {
        assert forall|j: int| 0 <= j < n implies planned(services@)[j] == #[trigger] order@[j]@ by {
            assert(services@[j].is_for(
                order@[j]@,
                first_body(all, order@[j]@),
                prefix@,
                secrets_of(secrets@),
                proc@,
                dotenv@,
                computed@,
            ));
        }
        assert(planned(services@) =~= views(order@));
    }
    Ok(BuildPlan { prefix, services })
}

// Running the builds.

/// Two arguments for each of a list.
pub open spec fn flagged(flag: Seq<char>, values: Seq<Seq<char>>) -> Seq<Seq<char>>
    decreases values.len(),
{
    if values.len() == 0 {
        seq![]
    } else {
        flagged(flag, values.drop_last()) + seq![flag, values.last()]
    }
}

/// How a build is given a secret: by its name alone.
pub open spec fn secret_option(name: Seq<char>) -> Seq<char> {
    "id="@ + name + ",env="@ + name
}

/// How a build is given an argument.
pub open spec fn assignment(pair: (Seq<char>, Seq<char>)) -> Seq<char> {
    pair.0 + "="@ + pair.1
}

/// The docker arguments that build an image.
pub open spec fn docker_build_line(
    secrets: Seq<Seq<char>>,
    args: Seq<(Seq<char>, Seq<char>)>,
    tag: Seq<char>,
    dockerfile: Seq<char>,
) -> Seq<Seq<char>> {
    seq!["build"@] + flagged(
        "--secret"@,
        secrets.map_values(|name: Seq<char>| secret_option(name)),
    ) + flagged(
        "--build-arg"@,
        args.map_values(|pair: (Seq<char>, Seq<char>)| assignment(pair)),
    ) + seq!["-t"@, tag, "-f"@, dockerfile, "."@]
}

/// The docker arguments that build the image of a service.
pub fn docker_build_args(service: &ServicePlan) -> (r: Vec<String>)
    ensures
        views(r@) == docker_build_line(
            views(service.secrets@),
            pairs(service.args@),
            service.tag@,
            service.dockerfile@,
        ),
{
    let mut out = vec!["build".to_string()];
    let ghost head = seq!["build"@];
    let ghost hidden = views(service.secrets@).map_values(|name: Seq<char>| secret_option(name));
    let n: usize = service.secrets.len();
    assert(views(out@) =~= head + flagged("--secret"@, hidden.take(0)));
    for i in 0..n
        invariant
            n == service.secrets@.len(),
            head == seq!["build"@],
            hidden == views(service.secrets@).map_values(|name: Seq<char>| secret_option(name)),
            views(out@) == head + flagged("--secret"@, hidden.take(i as int)),
    {
        let ghost before = views(out@);
        let mut option = "id=".to_string();
        option.append(service.secrets[i].as_str());
        option.append(",env=");
        option.append(service.secrets[i].as_str());
        let ghost added = option@;
        out.push("--secret".to_string());
        out.push(option);
        proof {
            assert(hidden[i as int] == added);
            assert(hidden.take(i + 1).drop_last() =~= hidden.take(i as int));
            assert(views(out@) =~= before + seq!["--secret"@, added]);
            assert(views(out@) =~= head + flagged("--secret"@, hidden.take(i + 1)));
        }
    }
    assert(hidden.take(n as int) =~= hidden);
    let ghost middle = views(out@);
    let ghost given = pairs(service.args@).map_values(
        |pair: (Seq<char>, Seq<char>)| assignment(pair),
    );
    let m: usize = service.args.len();
    assert(middle + flagged("--build-arg"@, given.take(0)) =~= middle);
    for i in 0..m
        invariant
            m == service.args@.len(),
            given == pairs(service.args@).map_values(
                |pair: (Seq<char>, Seq<char>)| assignment(pair),
            ),
            views(out@) == middle + flagged("--build-arg"@, given.take(i as int)),
    {
        let ghost before = views(out@);
        let mut option = service.args[i].0.clone();
        option.append("=");
        option.append(service.args[i].1.as_str());
        let ghost added = option@;
        out.push("--build-arg".to_string());
        out.push(option);
        proof {
            assert(given[i as int] == added);
            assert(given.take(i + 1).drop_last() =~= given.take(i as int));
            assert(views(out@) =~= before + seq!["--build-arg"@, added]);
            assert(views(out@) =~= middle + flagged("--build-arg"@, given.take(i + 1)));
        }
    }
    assert(given.take(m as int) =~= given);
    let ghost before = views(out@);
    out.push("-t".to_string());
    out.push(service.tag.clone());
    out.push("-f".to_string());
    out.push(service.dockerfile.clone());
    out.push(".".to_string());
    assert(views(out@) =~= before + seq![
        "-t"@,
        service.tag@,
        "-f"@,
        service.dockerfile@,
        "."@,
    ]);
    out
}

/// The line above the build of a service.
pub fn build_title(name: &str) -> (r: String)
    ensures
        r@ == "Building "@ + name@,
{
    glue("Building ", name)
}

/// What is added to the environment of a build: BuildKit is turned on, what docker gets in any
/// case, and the secrets.
pub fn build_env(injected: Vec<EnvBinding>, secrets: Vec<(String, String)>) -> (r: Vec<
    EnvBinding,
>)
    ensures
        bindings(r@) == seq![("DOCKER_BUILDKIT"@, "1"@), ("COMPOSE_DOCKER_CLI_BUILD"@, "1"@)]
            + bindings(injected@) + pairs(secrets@),
{
    let mut out = vec![
        EnvBinding { key: "DOCKER_BUILDKIT".to_string(), value: "1".to_string() },
        EnvBinding { key: "COMPOSE_DOCKER_CLI_BUILD".to_string(), value: "1".to_string() },
    ];
    let ghost head = seq![("DOCKER_BUILDKIT"@, "1"@), ("COMPOSE_DOCKER_CLI_BUILD"@, "1"@)];
    let ghost given = bindings(injected@);
    let n: usize = injected.len();
    assert(bindings(out@) =~= head + given.take(0));
    for i in 0..n
        invariant
            n == injected@.len(),
            given == bindings(injected@),
            bindings(out@) == head + given.take(i as int),
    {
        let ghost had = bindings(out@);
        out.push(
            EnvBinding { key: injected[i].key.clone(), value: injected[i].value.clone() },
        );
        assert(bindings(out@) =~= had.push(given[i as int]));
        assert(head + given.take(i + 1) =~= (head + given.take(i as int)).push(given[i as int]));
    }
    let ghost front = bindings(out@);
    let ghost hidden = pairs(secrets@);
    let m: usize = secrets.len();
    assert(given.take(n as int) =~= given);
    assert(front + hidden.take(0) =~= front);
    for i in 0..m
        invariant
            m == secrets@.len(),
            hidden == pairs(secrets@),
            bindings(out@) == front + hidden.take(i as int),
    {
        let ghost had = bindings(out@);
        out.push(EnvBinding { key: secrets[i].0.clone(), value: secrets[i].1.clone() });
        assert(bindings(out@) =~= had.push(hidden[i as int]));
        assert(front + hidden.take(i + 1) =~= (front + hidden.take(i as int)).push(
            hidden[i as int],
        ));
    }
    assert(hidden.take(m as int) =~= hidden);
    out
}

/// The docker arguments of each build, in order, where there is something to build.
pub fn build(plan: &BuildPlan) -> (r: Result<Vec<Vec<String>>, BuildError>)
    ensures
        r == Err::<Vec<Vec<String>>, BuildError>(BuildError::NoServices) <==> plan.services@.len()
            == 0,
        r == Err::<Vec<Vec<String>>, BuildError>(BuildError::NoPrefix) <==> plan.services@.len()
            > 0 && plan.prefix@.len() == 0,
        match r {
            Ok(list) => {
                &&& list@.len() == plan.services@.len()
                &&& forall|i: int|
                    0 <= i < list@.len() ==> views((#[trigger] list@[i])@) == docker_build_line(
                        views(plan.services@[i].secrets@),
                        pairs(plan.services@[i].args@),
                        plan.services@[i].tag@,
                        plan.services@[i].dockerfile@,
                    )
            },
            Err(e) => e != BuildError::Cycle,
        },
{
    let n: usize = plan.services.len();
    if n == 0 {
        return Err(BuildError::NoServices);
    }
    if plan.prefix.as_str().is_empty() {
        return Err(BuildError::NoPrefix);
    }
    let mut out: Vec<Vec<String>> = Vec::new();
    for i in 0..n
        invariant
            n == plan.services@.len(),
            out@.len() == i,
            forall|j: int|
                0 <= j < i ==> views((#[trigger] out@[j])@) == docker_build_line(
                    views(plan.services@[j].secrets@),
                    pairs(plan.services@[j].args@),
                    plan.services@[j].tag@,
                    plan.services@[j].dockerfile@,
                ),
    {
        out.push(docker_build_args(&plan.services[i]));
    }
    Ok(out)
}

// What the builds are given.

/// A letter, a digit or an underscore.
pub open spec fn in_name(c: char) -> bool {
    'a' <= c <= 'z' || 'A' <= c <= 'Z' || '0' <= c <= '9' || c == '_'
}

/// Whether a text can be the name of a build argument or a secret.
pub open spec fn can_be_named(name: Seq<char>) -> bool {
    &&& name.len() > 0
    &&& !('0' <= name[0] <= '9')
    &&& forall|i: int| 0 <= i < name.len() ==> in_name(#[trigger] name[i])
}

proof fn lemma_named(name: Seq<char>)
    ensures
        can_be_named(name) <==> ident(name),
        can_be_named(name) ==> trimmed(name) == name,
{
    if can_be_named(name) {
        assert forall|i: int| 0 <= i < name.len() implies is_alnum(#[trigger] name[i]) || name[i]
            == '_' by {
            assert(in_name(name[i]));
        }
        assert(in_name(name[0]) && in_name(name.last()));
        lemma_trimmed(name);
    }
    if ident(name) {
        assert forall|i: int| 0 <= i < name.len() implies in_name(#[trigger] name[i]) by {
            assert(is_alnum(name[i]) || name[i] == '_');
        }
    }
}

proof fn lemma_declared(line: Seq<char>, name: Seq<char>, rest: Seq<char>)
    requires
        trimmed(line) == "ARG "@ + name + rest,
        can_be_named(name),
        rest.len() == 0 || rest[0] == '=' || rest[0] == ' ' || rest[0] == '\t',
    ensures
        arg_name(line) == Some(name),
{
    reveal_strlit("ARG ");
    let text = trimmed(line);
    let behind = name + rest;
    assert(text.take(4) =~= "ARG "@);
    assert(text.skip(4) =~= behind);
    assert forall|i: int| 0 <= i < name.len() implies !#[trigger] arg_end()(behind[i]) by {
        assert(behind[i] == name[i]);
        assert(in_name(name[i]));
    }
    if rest.len() > 0 {
        assert(behind[name.len() as int] == rest[0]);
    }
    lemma_run_len_is(behind, arg_end(), name.len() as int);
    assert(behind.take(name.len() as int) =~= name);
    lemma_named(name);
}

/// A line of a Dockerfile that begins with `ARG` and a name declares the name, whether a default
/// follows it or not; what is declared can be a name and stands in such a line, and is there once.
pub proof fn law_arg_lines_declare(
    body: &str,
    r: Vec<String>,
    i: int,
    name: Seq<char>,
    rest: Seq<char>,
)
    requires
        call_ensures(declared_args, (body,), r),
    ensures
        0 <= i < lines_of(body@).len() && trimmed(lines_of(body@)[i]) == "ARG "@ + name + rest
            && can_be_named(name) && (rest.len() == 0 || rest[0] == '=' || rest[0] == ' '
            || rest[0] == '\t') ==> views(r@).contains(name),
        views(r@).contains(name) ==> can_be_named(name) && exists|k: int|
            0 <= k < lines_of(body@).len() && has_prefix(
                trimmed(#[trigger] lines_of(body@)[k]),
                "ARG "@,
            ),
        views(r@).no_duplicates(),
{
    let all = lines_of(body@);
    law_args_are_declared_once(body@);
    if 0 <= i < all.len() && trimmed(all[i]) == "ARG "@ + name + rest && can_be_named(name) && (
    rest.len() == 0 || rest[0] == '=' || rest[0] == ' ' || rest[0] == '\t') {
        lemma_declared(all[i], name, rest);
    }
    if views(r@).contains(name) {
        let k = choose|k: int| 0 <= k < all.len() && arg_name(#[trigger] all[k]) == Some(name);
        lemma_named(name);
        assert(has_prefix(trimmed(all[k]), "ARG "@));
    }
}

/// A build argument has the value of the process, or else of the dotenv file, or else the one that
/// was worked out; an empty value counts as none.
pub proof fn law_values_come_from_the_process_first(
    name: &str,
    proc: &Vars,
    dotenv: &Vars,
    computed: &Vars,
    r: Option<String>,
)
    requires
        call_ensures(merged_value, (name, proc, dotenv, computed), r),
    ensures
        ({
            let own = proc@.dom().contains(name@) && proc@[name@].len() > 0;
            let kept = dotenv@.dom().contains(name@) && dotenv@[name@].len() > 0;
            let made = computed@.dom().contains(name@) && computed@[name@].len() > 0;
            &&& own ==> r is Some && r->0@ == proc@[name@]
            &&& !own && kept ==> r is Some && r->0@ == dotenv@[name@]
            &&& !own && !kept && made ==> r is Some && r->0@ == computed@[name@]
            &&& !own && !kept && !made ==> r is None
        }),
{
    let all = seq![
        filled(held(proc@, name@)),
        filled(held(dotenv@, name@)),
        filled(held(computed@, name@)),
    ];
    if all[0] is Some {
        lemma_first_some(all, 0);
    } else if all[1] is Some {
        lemma_first_some(all, 1);
    } else if all[2] is Some {
        lemma_first_some(all, 2);
    } else {
        lemma_first_some(all, 3);
    }
}

proof fn lemma_flagged(flag: Seq<char>, values: Seq<Seq<char>>, i: int)
    requires
        0 <= i < values.len(),
    ensures
        flagged(flag, values).len() == 2 * values.len(),
        flagged(flag, values)[2 * i] == flag,
        flagged(flag, values)[2 * i + 1] == values[i],
    decreases values.len(),
{
    if values.len() == 1 {
        assert(flagged(flag, values.drop_last()) =~= seq![]);
    } else if i < values.len() - 1 {
        lemma_flagged(flag, values.drop_last(), i);
    } else {
        lemma_flagged(flag, values.drop_last(), 0);
    }
}

proof fn lemma_flagged_len(flag: Seq<char>, values: Seq<Seq<char>>)
    ensures
        flagged(flag, values).len() == 2 * values.len(),
{
    if values.len() > 0 {
        lemma_flagged(flag, values, 0);
    }
}

/// Docker builds an image from its Dockerfile in the project, under its tag; each secret goes to it
/// by name behind `--secret` and each argument by name and value behind `--build-arg`, in order,
/// and nothing else does.
pub proof fn law_docker_builds_with_secrets_and_args(
    service: &ServicePlan,
    r: Vec<String>,
    i: int,
    j: int,
)
    requires
        call_ensures(docker_build_args, (service,), r),
    ensures
        ({
            let line = views(r@);
            let s = service.secrets@.len() as int;
            let a = service.args@.len() as int;
            &&& line.len() == 2 * s + 2 * a + 6
            &&& line[0] == "build"@
            &&& 0 <= i < s ==> line[1 + 2 * i] == "--secret"@ && line[2 + 2 * i] == "id="@
                + service.secrets@[i]@ + ",env="@ + service.secrets@[i]@
            &&& 0 <= j < a ==> line[1 + 2 * s + 2 * j] == "--build-arg"@ && line[2 + 2 * s + 2 * j]
                == service.args@[j].0@ + "="@ + service.args@[j].1@
            &&& line[1 + 2 * s + 2 * a] == "-t"@
            &&& line[2 + 2 * s + 2 * a] == service.tag@
            &&& line[3 + 2 * s + 2 * a] == "-f"@
            &&& line[4 + 2 * s + 2 * a] == service.dockerfile@
            &&& line[5 + 2 * s + 2 * a] == "."@
        }),
{
    let secrets = views(service.secrets@);
    let args = pairs(service.args@);
    let hidden = secrets.map_values(|name: Seq<char>| secret_option(name));
    let given = args.map_values(|pair: (Seq<char>, Seq<char>)| assignment(pair));
    lemma_flagged_len("--secret"@, hidden);
    lemma_flagged_len("--build-arg"@, given);
    if 0 <= i < secrets.len() {
        lemma_flagged("--secret"@, hidden, i);
        assert(hidden[i] == secret_option(secrets[i]));
    }
    if 0 <= j < args.len() {
        lemma_flagged("--build-arg"@, given, j);
        assert(given[j] == assignment(args[j]));
    }
}

/// BuildKit is turned on for a build, which further has what docker has in any case and then the
/// secrets with their values.
pub proof fn law_builds_have_their_secrets_in_the_environment(
    injected: Vec<EnvBinding>,
    secrets: Vec<(String, String)>,
    r: Vec<EnvBinding>,
    i: int,
    j: int,
)
    requires
        call_ensures(build_env, (injected, secrets), r),
    ensures
        r@.len() == 2 + injected@.len() + secrets@.len(),
        r@[0].key@ == "DOCKER_BUILDKIT"@ && r@[0].value@ == "1"@,
        r@[1].key@ == "COMPOSE_DOCKER_CLI_BUILD"@ && r@[1].value@ == "1"@,
        0 <= i < injected@.len() ==> r@[2 + i].key@ == injected@[i].key@ && r@[2 + i].value@
            == injected@[i].value@,
        0 <= j < secrets@.len() ==> r@[2 + injected@.len() + j].key@ == secrets@[j].0@ && r@[2
            + injected@.len() + j].value@ == secrets@[j].1@,
{
    let all = bindings(r@);
    assert(all.len() == r@.len());
    assert(all[0] == (r@[0].key@, r@[0].value@));
    assert(all[1] == (r@[1].key@, r@[1].value@));
    if 0 <= i < injected@.len() {
        assert(all[2 + i] == (r@[2 + i].key@, r@[2 + i].value@));
        assert(all[2 + i] == bindings(injected@)[i]);
    }
    if 0 <= j < secrets@.len() {
        let k = 2 + injected@.len() + j;
        assert(all[k] == (r@[k].key@, r@[k].value@));
        assert(all[k] == pairs(secrets@)[j]);
    }
}

/// A line of a secrets file with a name, an equals sign and a value makes a secret of that name and
/// value, unless a hash leads; what is told to builds can be a name, and is told once.
pub proof fn law_secret_lines_assign(
    text: &str,
    names: Vec<String>,
    values: Vec<(String, String)>,
    i: int,
    name: Seq<char>,
    value: Seq<char>,
)
    requires
        call_ensures(secret_names, (text,), names),
        call_ensures(secret_env, (text,), values),
        0 <= i < lines_of(text@).len(),
        trimmed(lines_of(text@)[i]) == name + "="@ + value,
        can_be_named(name),
    ensures
        pairs(values@).contains((name, value)),
        value.len() > 0 ==> views(names@).contains(name),
        views(names@).no_duplicates(),
{
    reveal_strlit("=");
    let all = lines_of(text@);
    let line = trimmed(all[i]);
    lemma_named(name);
    assert(in_name(name[0]));
    assert(line[0] == name[0]);
    assert(!name.contains('=')) by {
        if name.contains('=') {
            let k = choose|k: int| 0 <= k < name.len() && name[k] == '=';
            assert(in_name(name[k]));
        }
    }
    law_parts_end_at_separators(name, '=', value);
    assert(line =~= name + seq!['='] + value);
    assert(secret_of(all[i]) == Some((name, value)));
    lemma_secret_is_assigned(all, i);
    law_secrets_are_told_by_name(text@);
    if value.len() > 0 {
        assert(secret_name(all[i]) == Some(name));
    }
}

/// A secret that is told to builds is named by a line that is no comment, and has a value there.
pub proof fn law_comments_hold_no_secrets(text: &str, names: Vec<String>, name: Seq<char>)
    requires
        call_ensures(secret_names, (text,), names),
        views(names@).contains(name),
    ensures
        can_be_named(name),
        exists|i: int, key: Seq<char>, value: Seq<char>|
            0 <= i < lines_of(text@).len() && trimmed(#[trigger] lines_of(text@)[i]) == #[trigger] (
            key + "="@ + value) && trimmed(key) == name && value.len() > 0 && trimmed(
                lines_of(text@)[i],
            )[0] != '#',
{
    reveal_strlit("=");
    law_secrets_are_told_by_name(text@);
    lemma_named(name);
    let all = lines_of(text@);
    let i = choose|i: int| 0 <= i < all.len() && secret_name(#[trigger] all[i]) == Some(name);
    let line = trimmed(all[i]);
    let n = upto(line, '=');
    lemma_run_len(line, only('='));
    let key = line.take(n);
    let value = line.skip(n + 1);
    assert(only('=')(line[n]));
    assert(line =~= key + "="@ + value);
}

/// In development the compose file that overrides is looked at first, elsewhere the one for
/// production.
pub proof fn law_compose_files_are_looked_at_in_turn(dev: bool, r: Vec<String>)
    requires
        call_ensures(compose_files, (dev,), r),
    ensures
        r@.len() == 3,
        views(r@)[0] == if dev {
            "compose.override.yml"@
        } else {
            "compose.prod.yml"@
        },
        views(r@)[1] == "compose.yml"@,
        views(r@)[2] == if dev {
            "compose.prod.yml"@
        } else {
            "compose.override.yml"@
        },
{
    assert(views(r@).len() == 3);
}

proof fn lemma_first_body(files: Seq<(Seq<char>, Seq<char>)>, k: int)
    requires
        0 <= k < files.len(),
        forall|j: int| 0 <= j < k ==> (#[trigger] files[j]).0 != files[k].0,
    ensures
        first_body(files, files[k].0) == files[k].1,
    decreases files.len(),
{
    if k > 0 {
        assert(files[0].0 != files[k].0);
        let rest = files.skip(1);
        assert forall|j: int| 0 <= j < k - 1 implies (#[trigger] rest[j]).0 != rest[k - 1].0 by {
            assert(rest[j] == files[j + 1]);
        }
        lemma_first_body(rest, k - 1);
    }
}

/// A service of a plan is built from the Dockerfile of its name, under the tag `latest` of its
/// image with the project's prefix before it. It gets an argument that a line of its Dockerfile
/// declares with the value that the process has for it, and gets no argument that no line
/// declares. The secrets that it is told of are those of the secrets file.
pub proof fn law_planned_services_are_built_from_their_files(
    files: &[(String, String)],
    composes: &[String],
    proc: &Vars,
    dotenv: &Vars,
    computed: &Vars,
    secrets: &str,
    r: Result<BuildPlan, BuildError>,
    made: BuildPlan,
    i: int,
    k: int,
    n: int,
    name: Seq<char>,
    rest: Seq<char>,
    value: Seq<char>,
    names: Vec<String>,
)
    requires
        call_ensures(plan, (files, composes, proc, dotenv, computed, secrets), r),
        r == Ok::<BuildPlan, BuildError>(made),
        call_ensures(secret_names, (secrets,), names),
        0 <= i < made.services@.len(),
        0 <= k < files@.len(),
        files@[k].0@ == made.services@[i].name@,
        forall|j: int| 0 <= j < k ==> (#[trigger] files@[j]).0@ != files@[k].0@,
    ensures
        ({
            let service = made.services@[i];
            let lines = lines_of(files@[k].1@);
            &&& service.dockerfile@ == service.name@ + ".Dockerfile"@
            &&& made.prefix@.len() > 0 ==> service.tag@ == made.prefix@ + "/"@ + service.name@
                + ":latest"@
            &&& made.prefix@.len() == 0 ==> service.tag@ == service.name@ + ":latest"@
            &&& views(service.secrets@) == views(names@)
            &&& 0 <= n < lines.len() && trimmed(lines[n]) == "ARG "@ + name + rest && can_be_named(
                name,
            ) && (rest.len() == 0 || rest[0] == '=' || rest[0] == ' ' || rest[0] == '\t')
                && proc@.dom().contains(name) && proc@[name].len() > 0 ==> pairs(
                service.args@,
            ).contains((name, proc@[name]))
            &&& pairs(service.args@).contains((name, value)) ==> value.len() > 0 && can_be_named(
                name,
            ) && exists|m: int|
                0 <= m < lines.len() && has_prefix(trimmed(#[trigger] lines[m]), "ARG "@)
        }),
{
    let all = pairs(files@);
    let service = made.services@[i];
    assert forall|j: int| 0 <= j < k implies (#[trigger] all[j]).0 != all[k].0 by {
        assert(all[j].0 == files@[j].0@);
    }
    lemma_first_body(all, k);
    assert(planned(made.services@)[i] == service.name@);
    let body = files@[k].1@;
    let lines = lines_of(body);
    assert(service.is_for(
        service.name@,
        body,
        made.prefix@,
        secrets_of(secrets@),
        proc@,
        dotenv@,
        computed@,
    ));
    law_args_are_declared_once(body);
    if 0 <= n < lines.len() && trimmed(lines[n]) == "ARG "@ + name + rest && can_be_named(name) && (
    rest.len() == 0 || rest[0] == '=' || rest[0] == ' ' || rest[0] == '\t')
        && proc@.dom().contains(name) && proc@[name].len() > 0 {
        lemma_declared(lines[n], name, rest);
        lemma_first_some(
            seq![
                filled(held(proc@, name)),
                filled(held(dotenv@, name)),
                filled(held(computed@, name)),
            ],
            0,
        );
        law_builds_get_declared_args(
            args_of(body),
            proc@,
            dotenv@,
            computed@,
            name,
            proc@[name],
        );
    }
    if pairs(service.args@).contains((name, value)) {
        law_builds_get_declared_args(args_of(body), proc@, dotenv@, computed@, name, value);
        let m = choose|m: int| 0 <= m < lines.len() && arg_name(#[trigger] lines[m]) == Some(name);
        lemma_named(name);
        let found = seq![
            filled(held(proc@, name)),
            filled(held(dotenv@, name)),
            filled(held(computed@, name)),
        ];
        if found[0] is Some {
            lemma_first_some(found, 0);
        } else if found[1] is Some {
            lemma_first_some(found, 1);
        } else if found[2] is Some {
            lemma_first_some(found, 2);
        } else {
            lemma_first_some(found, 3);
        }
        assert(has_prefix(trimmed(lines[m]), "ARG "@));
    }
}

/// Whether a character can stand in the name of an image in a compose file.
pub open spec fn in_image(c: char) -> bool {
    !is_space(c) && c != '"' && c != '\''
}

/// The image of a line that names one.
proof fn lemma_image_line(
    line: Seq<char>,
    prefix: Seq<char>,
    service: Seq<char>,
    after: Seq<char>,
)
    requires
        line == "image: "@ + prefix + "/"@ + service + after,
        prefix.len() > 0,
        forall|i: int| 0 <= i < prefix.len() ==> in_image(#[trigger] prefix[i]),
        forall|i: int| 0 <= i < service.len() ==> in_image(#[trigger] service[i]),
        forall|i: int| 0 <= i < after.len() ==> in_image(#[trigger] after[i]),
    ensures
        lines_of(line) == seq![line],
        image_of(line) == Some(prefix + "/"@ + service + after),
        first_word(prefix + "/"@ + service + after) == prefix + "/"@ + service + after,
{
    reveal_strlit("image: ");
    reveal_strlit("image:");
    reveal_strlit("/");
    assert("image: "@.len() == 7 && "image:"@.len() == 6);
    let image = prefix + "/"@ + service + after;
    assert(line =~= "image: "@ + image);
    assert forall|i: int| 0 <= i < image.len() implies in_image(#[trigger] image[i]) by {
        let a = prefix.len() as int;
        let b = a + 1 + service.len();
        if i < a {
            assert(image[i] == prefix[i]);
        } else if i == a {
            assert(image[i] == '/');
        } else if i < b {
            assert(image[i] == service[i - a - 1]);
        } else {
            assert(image[i] == after[i - b]);
        }
    }
    // The line.
    assert(line[0] == 'i' && line[6] == ' ');
    assert(!line.contains('\n')) by {
        if line.contains('\n') {
            let k = choose|k: int| 0 <= k < line.len() && line[k] == '\n';
            if k < 7 {
                assert(line[k] == "image: "@[k]);
                assert("image: "@[0] == 'i' && "image: "@[1] == 'm' && "image: "@[2] == 'a'
                    && "image: "@[3] == 'g' && "image: "@[4] == 'e' && "image: "@[5] == ':'
                    && "image: "@[6] == ' ');
            } else {
                assert(in_image(image[k - 7]));
            }
        }
    }
    law_lines_end_at_line_feeds(line, seq![]);
    assert(in_image(image.last()));
    assert(line.last() == image.last());
    lemma_trimmed(line);
    // The image.
    assert(line.take(6) =~= "image:"@);
    let behind = line.skip(6);
    assert(behind =~= seq![' '] + image);
    assert(in_image(image[0]));
    assert(trimmed(behind) == image) by {
        let space = |c: char| is_space(c);
        assert(behind.skip(1) =~= image);
        assert(drop_start(behind, space) == drop_start(image, space));
        lemma_trimmed(image);
    }
    assert(trimmed_of(image, '"') == image);
    assert(trimmed_of(image, '\'') == image);
    assert(image_of(line) == Some(image));
    // The first word.
    assert forall|i: int| 0 <= i < image.len() implies !is_space(#[trigger] image[i]) by {
        assert(in_image(image[i]));
    }
    law_words_have_no_white_space(image, ' ', seq![]);
    assert(first_word(image) == image);
}

/// A compose file whose only line names an image of a service has the image's prefix: what stands
/// before the slash and the service. A tag, a digest or a variable may follow the service.
pub proof fn law_prefixes_stand_before_the_service(
    texts: &[String],
    services: &[String],
    r: String,
    prefix: Seq<char>,
    after: Seq<char>,
)
    requires
        call_ensures(image_prefix, (texts, services), r),
        texts@.len() == 1,
        services@.len() == 1,
        texts@[0]@ == "image: "@ + prefix + "/"@ + services@[0]@ + after,
        prefix.len() > 0,
        forall|i: int| 0 <= i < prefix.len() ==> in_image(#[trigger] prefix[i]),
        forall|i: int| 0 <= i < services@[0]@.len() ==> in_image(#[trigger] services@[0]@[i]),
        forall|i: int| 0 <= i < after.len() ==> in_image(#[trigger] after[i]),
        forall|at: int|
            0 <= at < prefix.len() ==> !#[trigger] occurs_at(
                prefix + "/"@ + services@[0]@ + after,
                "/"@ + services@[0]@,
                at,
            ),
        after.len() == 0 || after[0] == ':' || after[0] == '@' || after[0] == '$' || after[0]
            == '}',
    ensures
        r@ == prefix,
{
    reveal_strlit("/");
    let service = services@[0]@;
    let image = prefix + "/"@ + service + after;
    let line = texts@[0]@;
    lemma_image_line(line, prefix, service, after);
    // The prefix.
    let needle = seq!['/'] + service;
    assert(needle =~= "/"@ + service);
    let at = prefix.len() as int;
    assert(image.subrange(at, at + needle.len()) =~= needle);
    assert(occurs_at(image, needle, at));
    assert(has_part(image, needle));
    assert(first_occurrence(image, needle, at));
    let found = choose|k: int| first_occurrence(image, needle, k);
    assert(found == at) by {
        assert(occurs_at(image, needle, found));
        if found < at {
            assert(false);
        }
    }
    assert(image.skip(at + needle.len()) =~= after);
    assert(image.take(at) =~= prefix);
    assert(service_prefix(image, service) == Some(prefix));
    // The first of each.
    let names = views(services@);
    assert(names =~= seq![service]);
    lemma_first_some(service_prefixes(image, names), 0);
    assert(line_prefix(line, names) == Some(prefix));
    lemma_first_some(line_prefixes(lines_of(line), names), 0);
    assert(views(texts@) =~= seq![line]);
    lemma_first_some(text_prefixes(views(texts@), names), 0);
}

/// The prefix is that of the first compose file that shows one: a file without one makes no
/// difference, and neither does what follows a file with one.
pub proof fn law_the_first_prefix_counts(
    texts: &[String],
    first: &[String],
    rest: &[String],
    services: &[String],
    r: String,
    a: String,
    b: String,
)
    requires
        call_ensures(image_prefix, (texts, services), r),
        call_ensures(image_prefix, (first, services), a),
        call_ensures(image_prefix, (rest, services), b),
        views(texts@) == views(first@) + views(rest@),
    ensures
        a@.len() > 0 ==> r@ == a@,
        (forall|i: int, k: int|
            0 <= i < first@.len() && 0 <= k < lines_of(first@[i]@).len() ==> !has_prefix(
                trimmed(#[trigger] lines_of(first@[i]@)[k]),
                "image:"@,
            )) ==> r@ == b@,
{
    let names = views(services@);
    let x = text_prefixes(views(first@), names);
    let y = text_prefixes(views(rest@), names);
    assert(text_prefixes(views(texts@), names) =~= x + y);
    lemma_first_of_both(x, y);
    if forall|i: int, k: int|
        0 <= i < first@.len() && 0 <= k < lines_of(first@[i]@).len() ==> !has_prefix(
            trimmed(#[trigger] lines_of(first@[i]@)[k]),
            "image:"@,
        ) {
        assert forall|i: int| 0 <= i < x.len() implies (#[trigger] x[i]) is None by {
            let text = first@[i]@;
            assert(views(first@)[i] == text);
            let found = line_prefixes(lines_of(text), names);
            assert forall|k: int| 0 <= k < found.len() implies (#[trigger] found[k]) is None by {
                assert(!has_prefix(trimmed(lines_of(first@[i]@)[k]), "image:"@));
            }
            lemma_first_some(found, found.len() as int);
        }
        lemma_first_some(x, x.len() as int);
    }
}

proof fn lemma_first_of_both<A>(a: Seq<Option<A>>, b: Seq<Option<A>>)
    ensures
        first_some(a + b) == if first_some(a) is Some {
            first_some(a)
        } else {
            first_some(b)
        },
    decreases a.len(),
{
    if a.len() == 0 {
        assert(a + b =~= b);
    } else {
        assert((a + b)[0] == a[0]);
        assert((a + b).skip(1) =~= a.skip(1) + b);
        lemma_first_of_both(a.skip(1), b);
    }
}

/// An image whose name goes on behind the name of the service is another one's, and shows no
/// prefix.
pub proof fn law_longer_names_show_no_prefix(
    texts: &[String],
    services: &[String],
    r: String,
    prefix: Seq<char>,
    after: Seq<char>,
)
    requires
        call_ensures(image_prefix, (texts, services), r),
        texts@.len() == 1,
        services@.len() == 1,
        texts@[0]@ == "image: "@ + prefix + "/"@ + services@[0]@ + after,
        prefix.len() > 0,
        forall|i: int| 0 <= i < prefix.len() ==> in_image(#[trigger] prefix[i]),
        forall|i: int| 0 <= i < services@[0]@.len() ==> in_image(#[trigger] services@[0]@[i]),
        forall|i: int| 0 <= i < after.len() ==> in_image(#[trigger] after[i]),
        forall|at: int|
            0 <= at < prefix.len() ==> !#[trigger] occurs_at(
                prefix + "/"@ + services@[0]@ + after,
                "/"@ + services@[0]@,
                at,
            ),
        after.len() > 0,
        after[0] != ':' && after[0] != '@' && after[0] != '$' && after[0] != '}',
    ensures
        r@.len() == 0,
{
    reveal_strlit("/");
    let service = services@[0]@;
    let image = prefix + "/"@ + service + after;
    let line = texts@[0]@;
    lemma_image_line(line, prefix, service, after);
    let needle = seq!['/'] + service;
    assert(needle =~= "/"@ + service);
    let at = prefix.len() as int;
    assert(image.subrange(at, at + needle.len()) =~= needle);
    assert(occurs_at(image, needle, at));
    assert(has_part(image, needle));
    assert(first_occurrence(image, needle, at));
    let found = choose|k: int| first_occurrence(image, needle, k);
    assert(found == at) by {
        assert(occurs_at(image, needle, found));
        if found < at {
            assert(false);
        }
    }
    assert(image.skip(at + needle.len()) =~= after);
    assert(service_prefix(image, service) is None);
    let names = views(services@);
    assert(names =~= seq![service]);
    lemma_first_some(service_prefixes(image, names), 1);
    assert(line_prefix(line, names) is None);
    lemma_first_some(line_prefixes(lines_of(line), names), 1);
    assert(views(texts@) =~= seq![line]);
    lemma_first_some(text_prefixes(views(texts@), names), 1);
}

/// Each service of a plan is built with the arguments that docker has for it, in the order of the
/// plan; a plan without services, and one without a prefix, is refused.
pub proof fn law_plans_are_built_in_order(
    plan: &BuildPlan,
    r: Result<Vec<Vec<String>>, BuildError>,
    i: int,
    service: &ServicePlan,
    own: Vec<String>,
    title: String,
    name: &str,
)
    requires
        call_ensures(build, (plan,), r),
        call_ensures(docker_build_args, (service,), own),
        call_ensures(build_title, (name,), title),
    ensures
        r is Ok <==> plan.services@.len() > 0 && plan.prefix@.len() > 0,
        r matches Ok(list) ==> list@.len() == plan.services@.len(),
        r matches Ok(list) ==> (0 <= i < plan.services@.len() && *service == plan.services@[i]
            ==> views(list@[i]@) == views(own@)),
        title@ == "Building "@ + name@,
{
}

/// A further line at the end of a Dockerfile declares its name last, unless it is declared already;
/// a further line of a secrets file tells its name last in the same way.
pub proof fn law_names_come_in_the_order_of_their_lines(
    body: &str,
    longer: &str,
    line: Seq<char>,
    args: Vec<String>,
    more_args: Vec<String>,
    secrets: Vec<String>,
    more_secrets: Vec<String>,
)
    requires
        call_ensures(declared_args, (body,), args),
        call_ensures(declared_args, (longer,), more_args),
        call_ensures(secret_names, (body,), secrets),
        call_ensures(secret_names, (longer,), more_secrets),
        lines_of(longer@) == lines_of(body@).push(line),
    ensures
        views(more_args@) == views(args@) || exists|own: Seq<char>|
            !views(args@).contains(own) && views(more_args@) == #[trigger] views(args@).push(own),
        views(more_secrets@) == views(secrets@) || exists|own: Seq<char>|
            !views(secrets@).contains(own) && views(more_secrets@) == #[trigger] views(
                secrets@,
            ).push(own),
{
    let a = lines_of(body@).map_values(|line: Seq<char>| arg_name(line));
    let b = lines_of(longer@).map_values(|line: Seq<char>| arg_name(line));
    assert(b.drop_last() =~= a);
    let c = lines_of(body@).map_values(|line: Seq<char>| secret_name(line));
    let d = lines_of(longer@).map_values(|line: Seq<char>| secret_name(line));
    assert(d.drop_last() =~= c);
    if let Some(own) = b.last() {
        if !views(args@).contains(own) {
            assert(views(more_args@) == views(args@).push(own));
        }
    }
    if let Some(own) = d.last() {
        if !views(secrets@).contains(own) {
            assert(views(more_secrets@) == views(secrets@).push(own));
        }
    }
}

/// The arguments of a planned service come in the order in which its Dockerfile declares them.
pub proof fn law_arguments_come_as_declared(
    files: &[(String, String)],
    composes: &[String],
    proc: &Vars,
    dotenv: &Vars,
    computed: &Vars,
    secrets: &str,
    r: Result<BuildPlan, BuildError>,
    made: BuildPlan,
    i: int,
    k: int,
    body: &str,
    declared: Vec<String>,
    p: int,
    q: int,
)
    requires
        call_ensures(plan, (files, composes, proc, dotenv, computed, secrets), r),
        r == Ok::<BuildPlan, BuildError>(made),
        0 <= i < made.services@.len(),
        0 <= k < files@.len(),
        files@[k].0@ == made.services@[i].name@,
        forall|j: int| 0 <= j < k ==> (#[trigger] files@[j]).0@ != files@[k].0@,
        body@ == files@[k].1@,
        call_ensures(declared_args, (body,), declared),
        0 <= p < q < made.services@[i].args@.len(),
    ensures
        exists|x: int, y: int|
            0 <= x < y < declared@.len() && #[trigger] declared@[x]@
                == made.services@[i].args@[p].0@ && #[trigger] declared@[y]@
                == made.services@[i].args@[q].0@,
{
    let service = made.services@[i];
    let all = pairs(files@);
    assert(all[k] == (files@[k].0@, files@[k].1@));
    assert forall|j: int| 0 <= j < k implies (#[trigger] all[j]).0 != all[k].0 by {
        assert(files@[j].0@ != files@[k].0@);
    }
    lemma_first_body(all, k);
    let names = views(declared@);
    lemma_chosen_order(names, proc@, dotenv@, computed@, p, q);
    let chosen = chosen_args(names, proc@, dotenv@, computed@);
    assert(pairs(service.args@) == chosen);
    assert(chosen[p].0 == service.args@[p].0@);
    assert(chosen[q].0 == service.args@[q].0@);
    let (x, y) = choose|x: int, y: int|
        0 <= x < y < names.len() && #[trigger] names[x] == chosen[p].0 && #[trigger] names[y]
            == chosen[q].0;
    assert(declared@[x]@ == names[x]);
    assert(declared@[y]@ == names[y]);
}

proof fn lemma_chosen_order(
    declared: Seq<Seq<char>>,
    proc: Map<Seq<char>, Seq<char>>,
    dotenv: Map<Seq<char>, Seq<char>>,
    computed: Map<Seq<char>, Seq<char>>,
    p: int,
    q: int,
)
    requires
        0 <= p < q < chosen_args(declared, proc, dotenv, computed).len(),
    ensures
        exists|x: int, y: int|
            0 <= x < y < declared.len() && #[trigger] declared[x] == chosen_args(
                declared,
                proc,
                dotenv,
                computed,
            )[p].0 && #[trigger] declared[y] == chosen_args(declared, proc, dotenv, computed)[q].0,
    decreases declared.len(),
{
    let all = chosen_args(declared, proc, dotenv, computed);
    let rest = declared.drop_last();
    let earlier = chosen_args(rest, proc, dotenv, computed);
    if q < earlier.len() {
        lemma_chosen_order(rest, proc, dotenv, computed, p, q);
        let (x, y) = choose|x: int, y: int|
            0 <= x < y < rest.len() && #[trigger] rest[x] == earlier[p].0 && #[trigger] rest[y]
                == earlier[q].0;
        assert(declared[x] == all[p].0);
        assert(declared[y] == all[q].0);
    } else {
        law_builds_get_declared_args(rest, proc, dotenv, computed, earlier[p].0, earlier[p].1);
        assert(earlier[p] == (earlier[p].0, earlier[p].1));
        assert(earlier.contains(earlier[p]));
        let x = choose|x: int| 0 <= x < rest.len() && rest[x] == earlier[p].0;
        assert(declared[x] == all[p].0);
        assert(declared[declared.len() - 1] == all[q].0);
    }
}

/// Quotes around an image, of either kind, make no difference.
pub proof fn law_quotes_around_images_do_not_count(
    quoted: &[String],
    plain: &[String],
    services: &[String],
    a: String,
    b: String,
    quote: char,
    image: Seq<char>,
)
    requires
        call_ensures(image_prefix, (quoted, services), a),
        call_ensures(image_prefix, (plain, services), b),
        quoted@.len() == 1,
        plain@.len() == 1,
        quote == '"' || quote == '\'',
        image.len() > 0,
        forall|i: int| 0 <= i < image.len() ==> in_image(#[trigger] image[i]),
        quoted@[0]@ == "image: "@ + (seq![quote] + image + seq![quote]),
        plain@[0]@ == "image: "@ + image,
    ensures
        a@ == b@,
{
    let names = views(services@);
    let x = quoted@[0]@;
    let y = plain@[0]@;
    assert forall|i: int| 0 <= i < image.len() implies !is_space(#[trigger] image[i]) && image[i]
        != '\n' by {
        assert(in_image(image[i]));
    }
    let given = seq![quote] + image + seq![quote];
    assert forall|i: int| 0 <= i < given.len() implies !is_space(#[trigger] given[i]) by {
        if 0 < i && i <= image.len() {
            assert(given[i] == image[i - 1]);
        }
    }
    lemma_given_line(x, given);
    lemma_given_line(y, image);
    assert(in_image(image[0]) && in_image(image[image.len() - 1]));
    lemma_unquoted(quote, image);
    assert(image_of(x) == image_of(y));
    assert(line_prefixes(lines_of(x), names) =~= seq![line_prefix(x, names)]);
    assert(line_prefixes(lines_of(y), names) =~= seq![line_prefix(y, names)]);
    assert(text_prefixes(views(quoted@), names) =~= seq![text_prefix(x, names)]);
    assert(text_prefixes(views(plain@), names) =~= seq![text_prefix(y, names)]);
}

/// The line with what is given behind its key.
proof fn lemma_given_line(line: Seq<char>, given: Seq<char>)
    requires
        line == "image: "@ + given,
        given.len() > 0,
        forall|i: int| 0 <= i < given.len() ==> !is_space(#[trigger] given[i]),
    ensures
        lines_of(line) == seq![line],
        image_of(line) == filled(Some(trimmed_of(trimmed_of(given, '"'), '\''))),
{
    reveal_strlit("image: ");
    reveal_strlit("image:");
    assert("image: "@.len() == 7 && "image:"@.len() == 6);
    assert(line[0] == 'i' && line[6] == ' ');
    assert(!line.contains('\n')) by {
        if line.contains('\n') {
            let k = choose|k: int| 0 <= k < line.len() && line[k] == '\n';
            if k < 7 {
                assert(line[k] == "image: "@[k]);
                assert("image: "@[0] == 'i' && "image: "@[1] == 'm' && "image: "@[2] == 'a'
                    && "image: "@[3] == 'g' && "image: "@[4] == 'e' && "image: "@[5] == ':'
                    && "image: "@[6] == ' ');
            } else {
                assert(!is_space(given[k - 7]));
            }
        }
    }
    law_lines_end_at_line_feeds(line, seq![]);
    assert(!is_space(given[given.len() - 1]) && !is_space(given[0]));
    assert(line.last() == given.last());
    lemma_trimmed(line);
    assert(line.take(6) =~= "image:"@);
    let behind = line.skip(6);
    assert(behind =~= seq![' '] + given);
    assert(trimmed(behind) == given) by {
        let space = |c: char| is_space(c);
        assert(behind.skip(1) =~= given);
        assert(drop_start(behind, space) == drop_start(given, space));
        lemma_trimmed(given);
    }
}

/// An image without its quotes.
proof fn lemma_unquoted(quote: char, image: Seq<char>)
    requires
        quote == '"' || quote == '\'',
        image.len() > 0,
        in_image(image[0]),
        in_image(image[image.len() - 1]),
    ensures
        trimmed_of(trimmed_of(seq![quote] + image + seq![quote], '"'), '\'') == image,
        trimmed_of(trimmed_of(image, '"'), '\'') == image,
{
    reveal_with_fuel(drop_start, 2);
    reveal_with_fuel(drop_end, 2);
    let given = seq![quote] + image + seq![quote];
    let rest = image + seq![quote];
    assert(given.skip(1) =~= rest);
    assert(rest[0] == image[0]);
    assert(rest.drop_last() =~= image);
    assert(rest.last() == quote);
    assert(image.last() == image[image.len() - 1]);
    assert(given[0] == quote && given.last() == quote);
    assert(trimmed_of(image, '"') == image);
    assert(trimmed_of(image, '\'') == image);
    if quote == '"' {
        assert(drop_start(given, only('"')) == rest);
        assert(trimmed_of(given, '"') == image);
    } else {
        assert(trimmed_of(given, '"') == given);
        assert(drop_start(given, only('\'')) == rest);
        assert(trimmed_of(given, '\'') == image);
    }
}

} // verus!
