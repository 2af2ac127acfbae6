//! The order in which the images of a project are built.

use crate::text::{
    before, contains, glue, has_part, lemma_before_irreflexive, lemma_before_total,
    lemma_before_transitive, listed, occurs_at, precedes, same, views,
};
use crate::vars::pairs;
use vstd::prelude::*;

verus! {

/// Why there is nothing to build.
#[derive(Debug, Clone, Copy, PartialEq, Eq, Structural)]
pub enum BuildError {
    /// The Dockerfiles refer to one another in a cycle.
    Cycle,
    /// There is no Dockerfile.
    NoServices,
    /// No compose file names an image of a service.
    NoPrefix,
}

impl BuildError {
    /// What the error says.
    pub open spec fn says(self, root: Seq<char>) -> Seq<char> {
        match self {
            BuildError::Cycle => "Dockerfile references contain a cycle"@,
            BuildError::NoServices => "no *.Dockerfile files in "@ + root,
            BuildError::NoPrefix => "could not find an image prefix in the compose files"@,
        }
    }

    /// What the error says.
    pub fn message(&self, root: &str) -> (r: String)
        ensures
            r@ == self.says(root@),
    {
        match self {
            BuildError::Cycle => "Dockerfile references contain a cycle".to_string(),
            BuildError::NoServices => glue("no *.Dockerfile files in ", root),
            BuildError::NoPrefix => "could not find an image prefix in the compose files".to_string(),
        }
    }
}

// The order in which images are built.

/// Some file is that of the service `name`.
pub open spec fn has_service(files: Seq<(Seq<char>, Seq<char>)>, name: Seq<char>) -> bool {
    exists|i: int| 0 <= i < files.len() && (#[trigger] files[i]).0 == name
}

/// The text of the last file of the service `name`.
pub open spec fn body_of(files: Seq<(Seq<char>, Seq<char>)>, name: Seq<char>) -> Seq<char>
    decreases files.len(),
{
    if files.len() == 0 {
        seq![]
    } else if files.last().0 == name {
        files.last().1
    } else {
        body_of(files.drop_last(), name)
    }
}

/// How a Dockerfile names the image of the service `name`.
pub open spec fn image_mark(name: Seq<char>) -> Seq<char> {
    seq!['/'] + name + seq![':']
}

/// The Dockerfile of the service `a` uses the image of another service `b`.
pub open spec fn refers(files: Seq<(Seq<char>, Seq<char>)>, a: Seq<char>, b: Seq<char>) -> bool {
    &&& has_service(files, a)
    &&& has_service(files, b)
    &&& a != b
    &&& has_part(body_of(files, a), image_mark(b))
}

/// Every image that the service `name` uses is in `done`.
pub open spec fn ready(
    files: Seq<(Seq<char>, Seq<char>)>,
    done: Seq<Seq<char>>,
    name: Seq<char>,
) -> bool {
    forall|b: Seq<char>| #[trigger] refers(files, name, b) ==> done.contains(b)
}

/// `name` is the service to build after those of `done`: of the services that are not built
/// and use no image that is not built, the first in the order of names.
pub open spec fn is_next(
    files: Seq<(Seq<char>, Seq<char>)>,
    done: Seq<Seq<char>>,
    name: Seq<char>,
) -> bool {
    &&& has_service(files, name)
    &&& !done.contains(name)
    &&& ready(files, done, name)
    &&& forall|n: Seq<char>|
        #[trigger] has_service(files, n) && !done.contains(n) && ready(files, done, n) ==> n == name
            || before(name, n)
}

/// Each service stands in `order` once, and at each place stands the one to build after those
/// before it.
pub open spec fn is_build_order(
    files: Seq<(Seq<char>, Seq<char>)>,
    order: Seq<Seq<char>>,
) -> bool {
    &&& order.no_duplicates()
    &&& forall|n: Seq<char>| #[trigger] order.contains(n) <==> has_service(files, n)
    &&& forall|i: int|
        0 <= i < order.len() ==> is_next(files, order.take(i), #[trigger] order[i])
}

/// The services of `stuck`, of which there is one at least, each use the image of another of
/// them.
pub open spec fn is_stuck(
    files: Seq<(Seq<char>, Seq<char>)>,
    stuck: Set<Seq<char>>,
) -> bool {
    &&& exists|n: Seq<char>| #[trigger] stuck.contains(n)
    &&& forall|n: Seq<char>| #[trigger] stuck.contains(n) ==> uses_one_of(files, n, stuck)
}

/// The service `name` uses the image of a service of `others`.
pub open spec fn uses_one_of(
    files: Seq<(Seq<char>, Seq<char>)>,
    name: Seq<char>,
    others: Set<Seq<char>>,
) -> bool {
    exists|b: Seq<char>| others.contains(b) && #[trigger] refers(files, name, b)
}

/// Some services each use the image of another of them.
pub open spec fn has_cycle(files: Seq<(Seq<char>, Seq<char>)>) -> bool {
    exists|stuck: Set<Seq<char>>| is_stuck(files, stuck)
}

/// Where some services are not built and none of them is ready, they hold one another up.
proof fn lemma_stuck(files: Seq<(Seq<char>, Seq<char>)>, built: Seq<Seq<char>>, k: int)
    requires
        0 <= k < files.len(),
        !built.contains(files[k].0),
        forall|j: int|
            0 <= j < files.len() && !built.contains((#[trigger] files[j]).0) ==> !ready(
                files,
                built,
                files[j].0,
            ),
    ensures
        has_cycle(files),
{
    let stuck = Set::new(|m: Seq<char>| has_service(files, m) && !built.contains(m));
    assert(has_service(files, files[k].0));
    assert(stuck.contains(files[k].0));
    assert forall|m: Seq<char>| #[trigger] stuck.contains(m) implies uses_one_of(
        files,
        m,
        stuck,
    ) by {
        let j = choose|j: int| 0 <= j < files.len() && (#[trigger] files[j]).0 == m;
        assert(!ready(files, built, files[j].0));
        let b = choose|b: Seq<char>| #[trigger] refers(files, m, b) && !built.contains(b);
        assert(stuck.contains(b));
    }
    assert(is_stuck(files, stuck));
}

/// The index of the last file of the service `name`.
fn last_file(files: &[(String, String)], name: &str) -> (r: Option<usize>)
    ensures
        match r {
            Some(i) => i < files@.len() && files@[i as int].0@ == name@ && files@[i as int].1@
                == body_of(pairs(files@), name@),
            None => !has_service(pairs(files@), name@),
        },
{
    let ghost all = pairs(files@);
    let mut i: usize = files.len();
    assert(all.take(i as int) =~= all);
    while i > 0
        invariant
            i <= files@.len(),
            all == pairs(files@),
            body_of(all, name@) == body_of(all.take(i as int), name@),
            forall|j: int| i <= j < all.len() ==> (#[trigger] all[j]).0 != name@,
        decreases i,
    {
        let ghost now = all.take(i as int);
        assert(now.drop_last() =~= all.take(i - 1));
        assert(now.last() == all[i - 1]);
        if same(files[i - 1].0.as_str(), name) {
            return Some(i - 1);
        }
        i -= 1;
    }
    None
}

/// Whether every image that the service `name` uses is in `done`.
fn is_ready(files: &[(String, String)], done: &[String], name: &str, body: &str) -> (r: bool)
    requires
        has_service(pairs(files@), name@),
        body@ == body_of(pairs(files@), name@),
    ensures
        r == ready(pairs(files@), views(done@), name@),
{
    let ghost all = pairs(files@);
    let n: usize = files.len();
    for i in 0..n
        invariant
            n == files@.len(),
            all == pairs(files@),
            has_service(all, name@),
            body@ == body_of(all, name@),
            forall|j: int|
                0 <= j < i && refers(all, name@, (#[trigger] all[j]).0) ==> views(
                    done@,
                ).contains(all[j].0),
    {
        let other = files[i].0.as_str();
        let mut mark = "/".to_string();
        mark.append(other);
        mark.append(":");
        proof {
            reveal_strlit("/");
            reveal_strlit(":");
            assert(mark@ =~= image_mark(other@));
            assert(all[i as int].0 == other@);
            assert(has_service(all, other@));
        }
        if !same(other, name) && contains(body, mark.as_str()) && !listed(done, other) {
            assert(refers(all, name@, other@));
            return false;
        }
    }
    proof {
        assert forall|b: Seq<char>| #[trigger] refers(all, name@, b) implies views(
            done@,
        ).contains(b) by {
            let j = choose|j: int| 0 <= j < all.len() && (#[trigger] all[j]).0 == b;
            assert(all[j].0 == b);
        }
    }
    true
}

/// What comes after the services that are built.
enum Pick {
    Service(String),
    Nothing,
    Cycle,
}

/// What comes after the services of `done`.
fn pick(files: &[(String, String)], done: &[String]) -> (r: Pick)
    ensures
        match r {
            Pick::Service(name) => is_next(pairs(files@), views(done@), name@),
            Pick::Nothing => forall|n: Seq<char>| #[trigger]
                has_service(pairs(files@), n) ==> views(done@).contains(n),
            Pick::Cycle => has_cycle(pairs(files@)),
        },
{
    let ghost all = pairs(files@);
    let ghost built = views(done@);
    let n: usize = files.len();
    let mut best: Option<usize> = None;
    let mut open: Option<usize> = None;
    for i in 0..n
        invariant
            n == files@.len(),
            all == pairs(files@),
            built == views(done@),
            match open {
                Some(k) => k < i && !built.contains(all[k as int].0),
                None => forall|j: int| 0 <= j < i ==> built.contains((#[trigger] all[j]).0),
            },
            match best {
                Some(b) => {
                    &&& b < i
                    &&& !built.contains(all[b as int].0)
                    &&& ready(all, built, all[b as int].0)
                    &&& forall|j: int|
                        0 <= j < i && !built.contains((#[trigger] all[j]).0) && ready(
                            all,
                            built,
                            all[j].0,
                        ) ==> all[j].0 == all[b as int].0 || before(all[b as int].0, all[j].0)
                },
                None => forall|j: int|
                    0 <= j < i && !built.contains((#[trigger] all[j]).0) ==> !ready(
                        all,
                        built,
                        all[j].0,
                    ),
            },
    {
        let name = files[i].0.as_str();
        proof {
            assert(all[i as int].0 == name@);
            assert(has_service(all, name@));
        }
        if !listed(done, name) {
            open = Some(i);
            let ready_now = match last_file(files, name) {
                Some(k) => is_ready(files, done, name, files[k].1.as_str()),
                None => false,
            };
            if ready_now {
                match best {
                    Some(b) => {
                        proof {
                            lemma_before_total(name@, all[b as int].0);
                            if before(name@, all[b as int].0) {
                                assert forall|j: int|
                                    0 <= j < i && before(
                                        all[b as int].0,
                                        (#[trigger] all[j]).0,
                                    ) implies before(name@, all[j].0) by {
                                    lemma_before_transitive(name@, all[b as int].0, all[j].0);
                                }
                            }
                        }
                        if precedes(name, files[b].0.as_str()) {
                            best = Some(i);
                        }
                    },
                    None => {
                        best = Some(i);
                    },
                }
            }
        }
    }
    match best {
        Some(b) => {
            let next = files[b].0.clone();
            proof {
                assert(next@ == all[b as int].0);
                assert forall|m: Seq<char>|
                    #[trigger] has_service(all, m) && !built.contains(m) && ready(
                        all,
                        built,
                        m,
                    ) implies m == next@ || before(next@, m) by {
                    let j = choose|j: int| 0 <= j < all.len() && (#[trigger] all[j]).0 == m;
                    assert(all[j].0 == m);
                }
            }
            Pick::Service(next)
        },
        None => match open {
            Some(k) => {
                proof {
                    lemma_stuck(all, built, k as int);
                }
                Pick::Cycle
            },
            None => {
                proof {
                    assert forall|m: Seq<char>| #[trigger] has_service(all, m) implies built.contains(
                        m,
                    ) by {
                        let j = choose|j: int| 0 <= j < all.len() && (#[trigger] all[j]).0 == m;
                        assert(all[j].0 == m);
                    }
                }
                Pick::Nothing
            },
        },
    }
}

/// The services in the order in which their images are built.
pub fn build_order(files: &[(String, String)]) -> (r: Result<Vec<String>, BuildError>)
    ensures
        match r {
            Ok(order) => is_build_order(pairs(files@), views(order@)),
            Err(e) => e == BuildError::Cycle,
        },
        r is Err <==> has_cycle(pairs(files@)),
{
    let ghost all = pairs(files@);
    let mut order: Vec<String> = Vec::new();
    assert(views(order@) =~= seq![]);
    loop
        invariant
            all == pairs(files@),
            views(order@).no_duplicates(),
            forall|i: int|
                0 <= i < order@.len() ==> is_next(
                    all,
                    views(order@).take(i),
                    #[trigger] views(order@)[i],
                ),
            order@.len() <= all.len(),
        decreases all.len() - order@.len(),
    {
        let ghost done = views(order@);
        match pick(files, order.as_slice()) {
            Pick::Service(next) => {
                let ghost name = next@;
                order.push(next);
                proof {
                    let now = views(order@);
                    assert(now =~= done.push(name));
                    assert forall|i: int| 0 <= i < now.len() implies is_next(
                        all,
                        now.take(i),
                        #[trigger] now[i],
                    ) by {
                        assert(now.take(i) =~= done.take(i));
                        if i == done.len() {
                            assert(done.take(i) =~= done);
                        } else {
                            assert(now[i] == done[i]);
                        }
                    }
                    assert forall|k: int| 0 <= k < now.len() implies has_service(
                        all,
                        #[trigger] now[k],
                    ) by {
                        assert(is_next(all, now.take(k), now[k]));
                    }
                    lemma_distinct_services(all, now);
                }
            },
            Pick::Nothing => {
                proof {
                    assert forall|n: Seq<char>| #[trigger] done.contains(n) implies has_service(
                        all,
                        n,
                    ) by {
                        let k = choose|k: int| 0 <= k < done.len() && done[k] == n;
                        assert(is_next(all, done.take(k), done[k]));
                    }
                    law_order_excludes_cycle(all, done);
                }
                return Ok(order);
            },
            Pick::Cycle => {
                return Err(BuildError::Cycle);
            },
        }
    }
}

/// There are no more different services than files.
proof fn lemma_distinct_services(files: Seq<(Seq<char>, Seq<char>)>, names: Seq<Seq<char>>)
    requires
        names.no_duplicates(),
        forall|k: int| 0 <= k < names.len() ==> has_service(files, #[trigger] names[k]),
    ensures
        names.len() <= files.len(),
{
    let heads = files.map_values(|f: (Seq<char>, Seq<char>)| f.0);
    assert forall|n: Seq<char>| names.to_set().contains(n) implies heads.to_set().contains(n) by {
        let k = choose|k: int| 0 <= k < names.len() && names[k] == n;
        assert(has_service(files, names[k]));
        let j = choose|j: int| 0 <= j < files.len() && (#[trigger] files[j]).0 == n;
        assert(heads[j] == n);
    }
    names.unique_seq_to_set();
    heads.lemma_cardinality_of_set();
    vstd::set_lib::lemma_len_subset(names.to_set(), heads.to_set());
}

/// Where there is a build order there is no cycle.
pub proof fn law_order_excludes_cycle(
    files: Seq<(Seq<char>, Seq<char>)>,
    order: Seq<Seq<char>>,
)
    requires
        is_build_order(files, order),
    ensures
        !has_cycle(files),
{
    if has_cycle(files) {
        let stuck = choose|stuck: Set<Seq<char>>| is_stuck(files, stuck);
        let n = choose|n: Seq<char>| #[trigger] stuck.contains(n);
        assert(uses_one_of(files, n, stuck));
        assert(order.contains(n));
        let k = choose|k: int| 0 <= k < order.len() && order[k] == n;
        lemma_not_stuck(files, order, stuck, k);
    }
}

proof fn lemma_not_stuck(
    files: Seq<(Seq<char>, Seq<char>)>,
    order: Seq<Seq<char>>,
    stuck: Set<Seq<char>>,
    k: int,
)
    requires
        is_build_order(files, order),
        is_stuck(files, stuck),
        0 <= k < order.len(),
    ensures
        !stuck.contains(order[k]),
    decreases k,
{
    if stuck.contains(order[k]) {
        assert(uses_one_of(files, order[k], stuck));
        let b = choose|b: Seq<char>| stuck.contains(b) && #[trigger] refers(files, order[k], b);
        assert(is_next(files, order.take(k), order[k]));
        assert(order.take(k).contains(b));
        let j = choose|j: int| 0 <= j < order.take(k).len() && order.take(k)[j] == b;
        assert(order[j] == b);
        lemma_not_stuck(files, order, stuck, j);
    }
}

/// Every image that a service uses is built before the service's own.
pub proof fn law_used_images_come_first(
    files: Seq<(Seq<char>, Seq<char>)>,
    order: Seq<Seq<char>>,
    i: int,
    j: int,
)
    requires
        is_build_order(files, order),
        0 <= i < order.len(),
        0 <= j < order.len(),
        refers(files, order[i], order[j]),
    ensures
        j < i,
{
    assert(is_next(files, order.take(i), order[i]));
    let k = choose|k: int| 0 <= k < order.take(i).len() && order.take(i)[k] == order[j];
    assert(order[k] == order[j]);
}

proof fn lemma_last_body(files: Seq<(Seq<char>, Seq<char>)>, k: int)
    requires
        0 <= k < files.len(),
        forall|m: int| k < m < files.len() ==> (#[trigger] files[m]).0 != files[k].0,
    ensures
        body_of(files, files[k].0) == files[k].1,
    decreases files.len(),
{
    if k < files.len() - 1 {
        let n = files.len() - 1;
        assert(files[n].0 != files[k].0);
        let first = files.drop_last();
        assert forall|m: int| k < m < first.len() implies (#[trigger] first[m]).0 != first[k].0 by {
            assert(first[m] == files[m]);
        }
        lemma_last_body(first, k);
    }
}

proof fn lemma_named_image(text: Seq<char>, x: Seq<char>, name: Seq<char>, y: Seq<char>)
    requires
        text == x + "/"@ + name + ":"@ + y,
    ensures
        has_part(text, image_mark(name)),
{
    reveal_strlit("/");
    reveal_strlit(":");
    let mark = image_mark(name);
    let at = x.len() as int;
    assert(text.subrange(at, at + mark.len()) =~= mark);
    assert(occurs_at(text, mark, at));
}

/// A Dockerfile that has the name of another service between a slash and a colon anywhere is
/// built after that service, whatever the registry before the slash, the tag behind the colon and
/// the rest of the file.
pub proof fn law_named_images_are_built_before(
    files: &[(String, String)],
    r: Result<Vec<String>, BuildError>,
    k: int,
    m: int,
    x: Seq<char>,
    tag: Seq<char>,
    y: Seq<char>,
)
    requires
        call_ensures(build_order, (files,), r),
        r is Ok,
        0 <= k < files@.len(),
        0 <= m < files@.len(),
        files@[m].0@ != files@[k].0@,
        forall|j: int| k < j < files@.len() ==> (#[trigger] files@[j]).0@ != files@[k].0@,
        files@[k].1@ == x + "/"@ + files@[m].0@ + ":"@ + tag + y,
    ensures
        exists|i: int, j: int|
            0 <= j < i < r->Ok_0@.len() && #[trigger] r->Ok_0@[i]@ == files@[k].0@
                && #[trigger] r->Ok_0@[j]@ == files@[m].0@,
{
    let all = pairs(files@);
    let order = views(r->Ok_0@);
    let name = all[k].0;
    let other = all[m].0;
    assert forall|j: int| k < j < all.len() implies (#[trigger] all[j]).0 != name by {
        assert(all[j].0 == files@[j].0@);
    }
    lemma_last_body(all, k);
    assert(x + "/"@ + other + ":"@ + tag + y =~= x + "/"@ + other + ":"@ + (tag + y));
    lemma_named_image(all[k].1, x, other, tag + y);
    assert(has_service(all, name));
    assert(has_service(all, other));
    assert(refers(all, name, other));
    assert(order.contains(name) && order.contains(other));
    let i = choose|i: int| 0 <= i < order.len() && order[i] == name;
    let j = choose|j: int| 0 <= j < order.len() && order[j] == other;
    law_used_images_come_first(all, order, i, j);
    assert(r->Ok_0@[i]@ == name);
    assert(r->Ok_0@[j]@ == other);
}

/// Whether a text has a name between a slash and a colon.
pub open spec fn names_image(text: Seq<char>, name: Seq<char>) -> bool {
    exists|x: Seq<char>, y: Seq<char>| text == #[trigger] (x + "/"@ + name + ":"@ + y)
}

proof fn lemma_image_is_named(text: Seq<char>, name: Seq<char>)
    ensures
        names_image(text, name) <==> has_part(text, image_mark(name)),
{
    reveal_strlit("/");
    reveal_strlit(":");
    let mark = image_mark(name);
    if has_part(text, mark) {
        let at = choose|at: int| #[trigger] occurs_at(text, mark, at);
        let x = text.take(at);
        let y = text.skip(at + mark.len());
        assert(text =~= x + mark + y);
        assert(text =~= x + "/"@ + name + ":"@ + y);
    }
    if names_image(text, name) {
        let (x, y) = choose|x: Seq<char>, y: Seq<char>|
            text == #[trigger] (x + "/"@ + name + ":"@ + y);
        lemma_named_image(text, x, name, y);
    }
}

/// Of two services next to one another in the order, the later one uses the image of the earlier
/// one, or its name comes later; so services that do not depend on one another come by name.
pub proof fn law_independent_services_come_by_name(
    files: &[(String, String)],
    r: Result<Vec<String>, BuildError>,
    i: int,
)
    requires
        call_ensures(build_order, (files,), r),
        r is Ok,
        0 <= i < r->Ok_0@.len() - 1,
    ensures
        names_image(body_of(pairs(files@), r->Ok_0@[i + 1]@), r->Ok_0@[i]@) || before(
            r->Ok_0@[i]@,
            r->Ok_0@[i + 1]@,
        ),
{
    let all = pairs(files@);
    let order = views(r->Ok_0@);
    let a = order[i];
    let b = order[i + 1];
    assert(a == r->Ok_0@[i]@ && b == r->Ok_0@[i + 1]@);
    lemma_image_is_named(body_of(all, b), a);
    assert(is_next(all, order.take(i), order[i]));
    assert(is_next(all, order.take(i + 1), order[i + 1]));
    if !refers(all, b, a) {
        assert(ready(all, order.take(i), b)) by {
            assert forall|c: Seq<char>| #[trigger] refers(all, b, c) implies order.take(
                i,
            ).contains(c) by {
                let done = order.take(i + 1);
                assert(done.contains(c));
                let n = choose|n: int| 0 <= n < done.len() && done[n] == c;
                assert(c != a);
                assert(n != i);
                assert(order.take(i)[n] == c);
            }
        }
        assert(!order.take(i).contains(b)) by {
            if order.take(i).contains(b) {
                let n = choose|n: int| 0 <= n < order.take(i).len() && order.take(i)[n] == b;
                assert(order[n] == order[i + 1]);
            }
        }
        assert(has_service(all, b));
    }
}

/// Every file's service is built exactly once, and nothing else is.
pub proof fn law_every_service_is_built_once(
    files: &[(String, String)],
    r: Result<Vec<String>, BuildError>,
    k: int,
)
    requires
        call_ensures(build_order, (files,), r),
        r is Ok,
    ensures
        0 <= k < files@.len() ==> exists|i: int|
            0 <= i < r->Ok_0@.len() && #[trigger] r->Ok_0@[i]@ == files@[k].0@,
        0 <= k < r->Ok_0@.len() ==> exists|j: int|
            0 <= j < files@.len() && (#[trigger] files@[j]).0@ == r->Ok_0@[k]@,
        forall|i: int, j: int|
            0 <= i < j < r->Ok_0@.len() ==> #[trigger] r->Ok_0@[i]@ != #[trigger] r->Ok_0@[j]@,
{
    let all = pairs(files@);
    let order = views(r->Ok_0@);
    if 0 <= k < files@.len() {
        assert(all[k].0 == files@[k].0@);
        assert(has_service(all, all[k].0));
        assert(order.contains(all[k].0));
        let i = choose|i: int| 0 <= i < order.len() && order[i] == all[k].0;
        assert(r->Ok_0@[i]@ == files@[k].0@);
    }
    if 0 <= k < order.len() {
        assert(order.contains(order[k]));
        let j = choose|j: int| 0 <= j < all.len() && (#[trigger] all[j]).0 == order[k];
        assert(files@[j].0@ == r->Ok_0@[k]@);
    }
    assert forall|i: int, j: int| 0 <= i < j < r->Ok_0@.len() implies #[trigger] r->Ok_0@[i]@
        != #[trigger] r->Ok_0@[j]@ by {
        assert(order[i] != order[j]);
    }
}

/// Two Dockerfiles that name each other's images cannot be ordered, and where none names the image
/// of another service there always is an order.
pub proof fn law_only_mutual_use_has_no_order(
    files: &[(String, String)],
    r: Result<Vec<String>, BuildError>,
    a: int,
    b: int,
)
    requires
        call_ensures(build_order, (files,), r),
        0 <= a < files@.len(),
        0 <= b < files@.len(),
        files@[a].0@ != files@[b].0@,
    ensures
        names_image(body_of(pairs(files@), files@[a].0@), files@[b].0@) && names_image(
            body_of(pairs(files@), files@[b].0@),
            files@[a].0@,
        ) ==> r is Err,
        (forall|i: int, j: int|
            0 <= i < files@.len() && 0 <= j < files@.len() ==> !names_image(
                body_of(pairs(files@), (#[trigger] files@[i]).0@),
                (#[trigger] files@[j]).0@,
            )) ==> r is Ok,
{
    let all = pairs(files@);
    let one = files@[a].0@;
    let two = files@[b].0@;
    assert(all[a].0 == one && all[b].0 == two);
    assert(has_service(all, one) && has_service(all, two));
    lemma_image_is_named(body_of(all, one), two);
    lemma_image_is_named(body_of(all, two), one);
    if names_image(body_of(all, one), two) && names_image(body_of(all, two), one) {
        let ring = seq![one, two];
        assert(refers(all, one, two) && refers(all, two, one));
        assert(ring[0] == one && ring[1] == two);
        assert(is_ring(all, ring));
        law_cycle_is_a_ring(all);
    }
    if r is Err {
        let stuck = choose|stuck: Set<Seq<char>>| is_stuck(all, stuck);
        let n = choose|n: Seq<char>| #[trigger] stuck.contains(n);
        assert(uses_one_of(all, n, stuck));
        let c = choose|c: Seq<char>| stuck.contains(c) && #[trigger] refers(all, n, c);
        let i = choose|i: int| 0 <= i < all.len() && (#[trigger] all[i]).0 == n;
        let j = choose|j: int| 0 <= j < all.len() && (#[trigger] all[j]).0 == c;
        lemma_image_is_named(body_of(all, n), c);
        assert(files@[i].0@ == n && files@[j].0@ == c);
    }
}

/// The files fix the build order.
pub proof fn law_order_is_unique(
    files: Seq<(Seq<char>, Seq<char>)>,
    a: Seq<Seq<char>>,
    b: Seq<Seq<char>>,
)
    requires
        is_build_order(files, a),
        is_build_order(files, b),
    ensures
        a == b,
{
    lemma_same_start(files, a, b, a.len() as int);
    lemma_same_start(files, b, a, b.len() as int);
    assert(a.take(a.len() as int) =~= a);
    assert(b.take(b.len() as int) =~= b);
}

proof fn lemma_same_start(
    files: Seq<(Seq<char>, Seq<char>)>,
    a: Seq<Seq<char>>,
    b: Seq<Seq<char>>,
    n: int,
)
    requires
        is_build_order(files, a),
        is_build_order(files, b),
        0 <= n <= a.len(),
    ensures
        n <= b.len(),
        a.take(n) == b.take(n),
    decreases n,
{
    if n > 0 {
        lemma_same_start(files, a, b, n - 1);
        let i = n - 1;
        assert(is_next(files, a.take(i), a[i]));
        assert(b.contains(a[i]));
        if b.len() == i {
            assert(b.take(i) =~= b);
            assert(false);
        }
        assert(is_next(files, b.take(i), b[i]));
        if a[i] != b[i] {
            lemma_before_transitive(a[i], b[i], a[i]);
            lemma_before_irreflexive(a[i]);
        }
        assert(a.take(n) =~= a.take(i).push(a[i]));
        assert(b.take(n) =~= b.take(i).push(b[i]));
    } else {
        assert(a.take(0) =~= b.take(0));
    }
}

/// Each service of `ring` uses the image of the next one, and the last that of the first.
pub open spec fn is_ring(files: Seq<(Seq<char>, Seq<char>)>, ring: Seq<Seq<char>>) -> bool {
    &&& ring.len() > 0
    &&& forall|i: int, j: int|
        0 <= i < ring.len() && j == (if i + 1 < ring.len() {
            i + 1
        } else {
            0
        }) ==> #[trigger] refers(files, ring[i], ring[j])
}

/// Ordering fails exactly where some services use one another's images in a ring.
pub proof fn law_cycle_is_a_ring(files: Seq<(Seq<char>, Seq<char>)>)
    ensures
        has_cycle(files) <==> exists|ring: Seq<Seq<char>>| is_ring(files, ring),
{
    if has_cycle(files) {
        let stuck = choose|stuck: Set<Seq<char>>| is_stuck(files, stuck);
        lemma_ring_in(files, stuck);
    }
    if exists|ring: Seq<Seq<char>>| is_ring(files, ring) {
        let ring = choose|ring: Seq<Seq<char>>| is_ring(files, ring);
        let stuck = ring.to_set();
        assert(ring.contains(ring[0]));
        assert(stuck.contains(ring[0]));
        assert forall|n: Seq<char>| #[trigger] stuck.contains(n) implies uses_one_of(
            files,
            n,
            stuck,
        ) by {
            let i = choose|i: int| 0 <= i < ring.len() && ring[i] == n;
            let next = if i + 1 < ring.len() {
                i + 1
            } else {
                0
            };
            assert(refers(files, ring[i], ring[next]));
            assert(stuck.contains(ring[next]));
        }
        assert(is_stuck(files, stuck));
    }
}

/// A walk of `n` steps from service to used service within `stuck`.
spec fn walk(
    files: Seq<(Seq<char>, Seq<char>)>,
    stuck: Set<Seq<char>>,
    n: nat,
) -> Seq<Seq<char>>
    decreases n,
{
    if n == 0 {
        seq![choose|m: Seq<char>| #[trigger] stuck.contains(m)]
    } else {
        let so_far = walk(files, stuck, (n - 1) as nat);
        so_far.push(
            choose|b: Seq<char>| stuck.contains(b) && #[trigger] refers(files, so_far.last(), b),
        )
    }
}

proof fn lemma_walk(files: Seq<(Seq<char>, Seq<char>)>, stuck: Set<Seq<char>>, n: nat)
    requires
        is_stuck(files, stuck),
    ensures
        walk(files, stuck, n).len() == n + 1,
        forall|i: int| 0 <= i <= n ==> stuck.contains(#[trigger] walk(files, stuck, n)[i]),
        forall|i: int, j: int|
            0 <= i < n && j == i + 1 ==> #[trigger] refers(
                files,
                walk(files, stuck, n)[i],
                walk(files, stuck, n)[j],
            ),
    decreases n,
{
    if n > 0 {
        lemma_walk(files, stuck, (n - 1) as nat);
        let so_far = walk(files, stuck, (n - 1) as nat);
        assert(stuck.contains(so_far[n - 1]));
        assert(uses_one_of(files, so_far.last(), stuck));
        let now = walk(files, stuck, n);
        assert forall|i: int, j: int| 0 <= i < n && j == i + 1 implies #[trigger] refers(
            files,
            now[i],
            now[j],
        ) by {
            if i < n - 1 {
                assert(refers(files, so_far[i], so_far[j]));
            }
        }
        assert forall|i: int| 0 <= i <= n implies stuck.contains(#[trigger] now[i]) by {
            if i < n {
                assert(stuck.contains(so_far[i]));
            }
        }
    }
}

/// A walk that comes back to a service contains a ring.
proof fn lemma_ring_between(
    files: Seq<(Seq<char>, Seq<char>)>,
    path: Seq<Seq<char>>,
    from: int,
    to: int,
)
    requires
        0 <= from < to < path.len(),
        path[from] == path[to],
        forall|i: int, j: int|
            0 <= i < path.len() - 1 && j == i + 1 ==> #[trigger] refers(files, path[i], path[j]),
    ensures
        is_ring(files, path.subrange(from, to)),
{
    let ring = path.subrange(from, to);
    assert forall|k: int, m: int|
        0 <= k < ring.len() && m == (if k + 1 < ring.len() {
            k + 1
        } else {
            0
        }) implies #[trigger] refers(files, ring[k], ring[m]) by {
        assert(refers(files, path[from + k], path[from + k + 1]));
        assert(ring[k] == path[from + k]);
        assert(ring[m] == path[from + m]);
        if k + 1 == ring.len() {
            assert(path[from + k + 1] == path[to]);
        }
    }
}

proof fn lemma_ring_in(files: Seq<(Seq<char>, Seq<char>)>, stuck: Set<Seq<char>>)
    requires
        is_stuck(files, stuck),
    ensures
        exists|ring: Seq<Seq<char>>| is_ring(files, ring),
{
    let n = files.len();
    lemma_walk(files, stuck, n);
    let path = walk(files, stuck, n);
    assert forall|k: int| 0 <= k < path.len() implies has_service(files, #[trigger] path[k]) by {
        assert(stuck.contains(path[k]));
        assert(uses_one_of(files, path[k], stuck));
    }
    if path.no_duplicates() {
        lemma_distinct_services(files, path);
    }
    let (i, j) = choose|i: int, j: int| 0 <= i < j < path.len() && path[i] == path[j];
    lemma_ring_between(files, path, i, j);
}

/// Errors say why nothing is built.
pub proof fn law_build_errors_say_why(error: &BuildError, root: &str, r: String)
    requires
        call_ensures(BuildError::message, (error, root), r),
    ensures
        error is Cycle ==> r@ == "Dockerfile references contain a cycle"@,
        error is NoServices ==> r@ == "no *.Dockerfile files in "@ + root@,
        error is NoPrefix ==> r@ == "could not find an image prefix in the compose files"@,
{
}

} // verus!
