//! The Dockerfiles of a project.

use crate::number::{decimal, to_decimal};
use crate::project::{join_path, path_in};
use crate::text::{
    before, contains, filled, glue, has_part, if_filled, lemma_before_irreflexive,
    lemma_before_transitive, occurs_at, precedes, strip_suffix, view_opt, without_suffix,
};
use crate::vars::{pairs, Vars};
use vstd::prelude::*;

verus! {

/// The service that a file builds the image of.
pub open spec fn service_in(name: Seq<char>) -> Option<Seq<char>> {
    match without_suffix(name, ".Dockerfile"@) {
        Some(service) => if service.len() == 0 || has_part(service, "/"@) {
            None
        } else {
            Some(service)
        },
        None => None,
    }
}

/// The service that a file builds the image of.
pub fn service_of(name: &str) -> (r: Option<String>)
    ensures
        view_opt(r) == service_in(name@),
{
    match strip_suffix(name, ".Dockerfile") {
        Some(service) => if service.as_str().is_empty() || contains(service.as_str(), "/") {
            None
        } else {
            Some(service)
        },
        None => None,
    }
}

/// The file that builds the image of a service.
pub fn dockerfile_path(root: &str, service: &str) -> (r: String)
    ensures
        r@ == path_in(root@, service@ + ".Dockerfile"@),
{
    join_path(root, glue(service, ".Dockerfile").as_str())
}

/// The place of a file in a sorted list: behind all that do not come after it.
pub open spec fn place(files: Seq<(Seq<char>, Seq<char>)>, name: Seq<char>) -> int
    decreases files.len(),
{
    if files.len() == 0 || before(name, files[0].0) {
        0
    } else {
        1 + place(files.skip(1), name)
    }
}

/// The files, sorted by service; those of one service stay in their order.
pub open spec fn sorted(files: Seq<(Seq<char>, Seq<char>)>) -> Seq<(Seq<char>, Seq<char>)>
    decreases files.len(),
{
    if files.len() == 0 {
        seq![]
    } else {
        let rest = sorted(files.drop_last());
        rest.insert(place(rest, files.last().0), files.last())
    }
}

proof fn lemma_place(files: Seq<(Seq<char>, Seq<char>)>, name: Seq<char>)
    ensures
        0 <= place(files, name) <= files.len(),
        forall|i: int|
            0 <= i < place(files, name) ==> !before(name, (#[trigger] files[i]).0),
        place(files, name) < files.len() ==> before(name, files[place(files, name)].0),
    decreases files.len(),
{
    if files.len() > 0 && !before(name, files[0].0) {
        let rest = files.skip(1);
        lemma_place(rest, name);
        assert forall|i: int| 0 <= i < place(files, name) implies !before(
            name,
            (#[trigger] files[i]).0,
        ) by {
            if i > 0 {
                assert(files[i] == rest[i - 1]);
            }
        }
    }
}

proof fn lemma_place_is(files: Seq<(Seq<char>, Seq<char>)>, name: Seq<char>, n: int)
    requires
        0 <= n <= files.len(),
        forall|i: int| 0 <= i < n ==> !before(name, (#[trigger] files[i]).0),
        n < files.len() ==> before(name, files[n].0),
    ensures
        place(files, name) == n,
    decreases files.len(),
{
    if n > 0 {
        let rest = files.skip(1);
        assert(!before(name, files[0].0));
        assert forall|i: int| 0 <= i < n - 1 implies !before(name, (#[trigger] rest[i]).0) by {
            assert(rest[i] == files[i + 1]);
        }
        lemma_place_is(rest, name, n - 1);
    }
}

/// No file comes after one that it should come before.
pub open spec fn in_order(files: Seq<(Seq<char>, Seq<char>)>) -> bool {
    forall|i: int, j: int|
        0 <= i < j < files.len() ==> !before((#[trigger] files[j]).0, (#[trigger] files[i]).0)
}

/// The sorted files are in order, and are the same files.
pub proof fn law_files_are_sorted(files: Seq<(Seq<char>, Seq<char>)>)
    ensures
        in_order(sorted(files)),
        sorted(files).to_multiset() == files.to_multiset(),
    decreases files.len(),
{
    if files.len() == 0 {
        assert(files =~= sorted(files));
    } else {
        let first = files.drop_last();
        let last = files.last();
        let rest = sorted(first);
        law_files_are_sorted(first);
        lemma_place(rest, last.0);
        let k = place(rest, last.0);
        let all = rest.insert(k, last);
        vstd::seq_lib::to_multiset_insert(rest, k, last);
        vstd::seq_lib::to_multiset_build(first, last);
        assert(first.push(last) =~= files);
        assert forall|i: int, j: int| 0 <= i < j < all.len() implies !before(
            (#[trigger] all[j]).0,
            (#[trigger] all[i]).0,
        ) by {
            lemma_inserted(rest, last, k, i, j);
        }
    }
}

proof fn lemma_inserted(
    rest: Seq<(Seq<char>, Seq<char>)>,
    last: (Seq<char>, Seq<char>),
    k: int,
    i: int,
    j: int,
)
    requires
        in_order(rest),
        0 <= k <= rest.len(),
        forall|x: int| 0 <= x < k ==> !before(last.0, (#[trigger] rest[x]).0),
        k < rest.len() ==> before(last.0, rest[k].0),
        0 <= i < j < rest.len() + 1,
    ensures
        !before(rest.insert(k, last)[j].0, rest.insert(k, last)[i].0),
{
    let all = rest.insert(k, last);
    if j < k {
        assert(all[i] == rest[i] && all[j] == rest[j]);
    } else if j == k {
        assert(all[i] == rest[i]);
    } else {
        let y = rest[j - 1];
        assert(all[j] == y);
        if i < k {
            assert(all[i] == rest[i]);
        } else if i > k {
            assert(all[i] == rest[i - 1]);
        } else {
            let x = rest[k];
            if before(y.0, last.0) {
                lemma_before_transitive(y.0, last.0, x.0);
                if j - 1 == k {
                    lemma_before_irreflexive(x.0);
                }
            }
        }
    }
}

/// The files, sorted by service.
pub fn sort_files(files: Vec<(String, String)>) -> (r: Vec<(String, String)>)
    ensures
        pairs(r@) == sorted(pairs(files@)),
{
    let n: usize = files.len();
    let ghost all = pairs(files@);
    let mut out: Vec<(String, String)> = Vec::new();
    assert(pairs(out@) =~= seq![]);
    for i in 0..n
        invariant
            n == files@.len(),
            all == pairs(files@),
            pairs(out@) == sorted(all.take(i as int)),
    {
        let name = files[i].0.as_str();
        let total: usize = out.len();
        let ghost had = pairs(out@);
        let mut at: usize = 0;
        while at < total && !precedes(name, out[at].0.as_str())
            invariant
                at <= total == out@.len(),
                had == pairs(out@),
                forall|j: int| 0 <= j < at ==> !before(name@, (#[trigger] had[j]).0),
            decreases total - at,
        {
            assert(had[at as int].0 == out@[at as int].0@);
            at += 1;
        }
        proof {
            if at < total {
                assert(had[at as int].0 == out@[at as int].0@);
            }
            lemma_place_is(had, name@, at as int);
            assert(all.take(i + 1).drop_last() =~= all.take(i as int));
            assert(all.take(i + 1).last() == all[i as int]);
        }
        out.insert(at, (files[i].0.clone(), files[i].1.clone()));
        assert(pairs(out@) =~= had.insert(at as int, all[i as int]));
    }
    assert(all.take(n as int) =~= all);
    out
}

// Values that are worked out.

/// The values that build arguments get where nobody set them.
pub open spec fn computed(
    uid: nat,
    gid: nat,
    user: Option<Seq<char>>,
    username: Option<Seq<char>>,
    version: Seq<char>,
) -> Map<Seq<char>, Seq<char>> {
    let ids = Map::empty().insert("UID"@, decimal(uid)).insert("GID"@, decimal(gid));
    let named = match filled(user) {
        Some(name) => ids.insert("USER"@, name),
        None => match filled(username) {
            Some(name) => ids.insert("USER"@, name),
            None => ids,
        },
    };
    named.insert("VERSION"@, version)
}

/// The values that build arguments get where nobody set them.
pub fn computed_values(
    uid: u32,
    gid: u32,
    user: Option<String>,
    username: Option<String>,
    version: String,
) -> (r: Vars)
    ensures
        r@ == computed(uid as nat, gid as nat, view_opt(user), view_opt(username), version@),
{
    let mut map = Vars::new();
    map.insert("UID".to_string(), to_decimal(uid as u64));
    map.insert("GID".to_string(), to_decimal(gid as u64));
    match if_filled(user) {
        Some(name) => {
            map.insert("USER".to_string(), name);
        },
        None => {
            if let Some(name) = if_filled(username) {
                map.insert("USER".to_string(), name);
            }
        },
    }
    map.insert("VERSION".to_string(), version);
    map
}

// Files in writing.

proof fn lemma_no_slash(service: Seq<char>)
    ensures
        has_part(service, "/"@) <==> service.contains('/'),
{
    reveal_strlit("/");
    assert("/"@ =~= seq!['/']);
    if has_part(service, "/"@) {
        let at = choose|at: int| #[trigger] occurs_at(service, "/"@, at);
        assert(service.subrange(at, at + 1)[0] == service[at]);
        assert(seq!['/'][0] == '/');
        assert(service.contains(service[at]));
    }
    if service.contains('/') {
        let at = choose|at: int| 0 <= at < service.len() && service[at] == '/';
        assert(service.subrange(at, at + 1) =~= seq!['/']);
        assert(occurs_at(service, "/"@, at));
    }
}

/// A file builds the image of the service before its ending `.Dockerfile`, and no other file does.
pub proof fn law_dockerfiles_name_their_service(name: &str, r: Option<String>, service: Seq<char>)
    requires
        call_ensures(service_of, (name,), r),
    ensures
        name@ == service + ".Dockerfile"@ && service.len() > 0 && !service.contains('/') ==> (
        r matches Some(found) && found@ == service),
        r matches Some(found) ==> name@ == found@ + ".Dockerfile"@ && found@.len() > 0
            && !found@.contains('/'),
{
    reveal_strlit(".Dockerfile");
    assert(".Dockerfile"@.len() == 11);
    lemma_no_slash(service);
    if name@ == service + ".Dockerfile"@ {
        assert(name@.skip(name@.len() - 11) =~= ".Dockerfile"@);
        assert(name@.take(name@.len() - 11) =~= service);
    }
    if let Some(found) = r {
        lemma_no_slash(found@);
        assert(name@ =~= found@ + ".Dockerfile"@);
    }
}

/// Builds can have the numbers of the user and the group, the name of the user and the version of
/// the project without anyone setting them.
pub proof fn law_builds_know_the_user_and_the_version(
    uid: u32,
    gid: u32,
    user: Option<String>,
    username: Option<String>,
    version: String,
    r: Vars,
)
    requires
        call_ensures(computed_values, (uid, gid, user, username, version), r),
    ensures
        ({
            let own = user matches Some(name) && name@.len() > 0;
            let other = username matches Some(name) && name@.len() > 0;
            &&& r@.dom().contains("UID"@) && r@["UID"@] == decimal(uid as nat)
            &&& r@.dom().contains("GID"@) && r@["GID"@] == decimal(gid as nat)
            &&& r@.dom().contains("VERSION"@) && r@["VERSION"@] == version@
            &&& own ==> r@.dom().contains("USER"@) && r@["USER"@] == user->0@
            &&& !own && other ==> r@.dom().contains("USER"@) && r@["USER"@] == username->0@
            &&& !own && !other ==> !r@.dom().contains("USER"@)
        }),
{
    reveal_strlit("UID");
    reveal_strlit("GID");
    reveal_strlit("USER");
    reveal_strlit("VERSION");
    assert("UID"@[0] == 'U' && "GID"@[0] == 'G');
    assert("UID"@.len() == 3 && "GID"@.len() == 3 && "USER"@.len() == 4 && "VERSION"@.len() == 7);
}

} // verus!
