//! The plan of a release.

use crate::number::{decimal, to_decimal};
use crate::release::packages::{package_views, Package, PackageView};
use crate::tags::{
    bump_fits, bumped, checked_bump, checked_prerelease_number, checked_release_base, day_prefix,
    highest, law_next_number_is_least, law_next_release_is_new, lemma_highest_is_used,
    lemma_number_behind, number_in, prerelease_prefix, release_base, release_tag, tag_in, Bump,
    Channel, VersionError,
};
use crate::text::{
    glue, glue3, has_prefix, join, joined, law_joined_parts_stand_between_separators, listed,
    view_opt, views,
};
use crate::version::parsed;
use vstd::prelude::*;

verus! {

/// Why there is no release.
#[derive(Debug)]
pub enum PlanError {
    Version(VersionError),
    /// The marker of a package that is there already.
    MarkerExists(String),
}

impl PlanError {
    /// What is said about the error.
    pub open spec fn says(self) -> Seq<char> {
        match self {
            PlanError::Version(error) => error.message@,
            PlanError::MarkerExists(marker) => "marker tag "@ + marker@ + " already exists"@,
        }
    }

    /// What is said about the error.
    pub fn message(&self) -> (r: String)
        ensures
            r@ == self.says(),
    {
        match self {
            PlanError::Version(error) => error.message.clone(),
            PlanError::MarkerExists(marker) => {
                glue3("marker tag ", marker.as_str(), " already exists")
            },
        }
    }
}

/// What the bump of every package comes to.
pub enum Bumped {
    Done(Seq<PackageView>),
    /// What is no version.
    Invalid(Seq<char>),
    /// A number cannot grow.
    Full,
}

/// What the bump of every package comes to; the first that fails decides.
pub open spec fn bump_all(packages: Seq<PackageView>, bump: Bump) -> Bumped
    decreases packages.len(),
{
    if packages.len() == 0 {
        Bumped::Done(seq![])
    } else {
        match parsed(packages[0].version) {
            None => Bumped::Invalid(packages[0].version),
            Some(version) => if !bump_fits(version, bump) {
                Bumped::Full
            } else {
                match bump_all(packages.skip(1), bump) {
                    Bumped::Done(rest) => Bumped::Done(
                        seq![
                            PackageView {
                                version: bumped(version, bump).text(),
                                ..packages[0]
                            },
                        ] + rest,
                    ),
                    other => other,
                }
            },
        }
    }
}

/// The packages with their next versions, or nothing where a number cannot grow.
pub fn bump_packages(packages: Vec<Package>, bump: Bump) -> (r: Result<
    Option<Vec<Package>>,
    VersionError,
>)
    ensures
        match bump_all(package_views(packages@), bump) {
            Bumped::Done(list) => r matches Ok(Some(new)) && package_views(new@) == list,
            Bumped::Full => r matches Ok(None),
            Bumped::Invalid(text) => r matches Err(error) && error.message@ == "invalid version "@
                + text,
        },
{
    let n: usize = packages.len();
    let ghost all = package_views(packages@);
    let mut out: Vec<Package> = Vec::new();
    assert(package_views(out@) =~= seq![]);
    assert(all.skip(0) =~= all);
    proof {
        lemma_prefixed(seq![], bump_all(all, bump));
    }
    for i in 0..n
        invariant
            n == packages@.len(),
            all == package_views(packages@),
            bump_all(all, bump) == prefixed(
                package_views(out@),
                bump_all(all.skip(i as int), bump),
            ),
    {
        let ghost rest = all.skip(i as int);
        let ghost had = package_views(out@);
        assert(rest[0] == packages@[i as int]@);
        assert(rest.skip(1) =~= all.skip(i + 1));
        match checked_bump(packages[i].version.as_str(), bump) {
            Err(error) => {
                return Err(error);
            },
            Ok(None) => {
                return Ok(None);
            },
            Ok(Some(version)) => {
                let ghost new = PackageView { version: version@, ..rest[0] };
                let mut package = packages[i].copy();
                package.version = version;
                out.push(package);
                proof {
                    assert(package_views(out@) =~= had.push(new));
                    if let Bumped::Done(list) = bump_all(rest.skip(1), bump) {
                        assert(had + (seq![new] + list) =~= had.push(new) + list);
                    }
                }
            },
        }
    }
    assert(all.skip(n as int) =~= seq![]);
    assert(package_views(out@) + seq![] =~= package_views(out@));
    Ok(Some(out))
}

spec fn prefixed(done: Seq<PackageView>, rest: Bumped) -> Bumped {
    match rest {
        Bumped::Done(list) => Bumped::Done(done + list),
        other => other,
    }
}

proof fn lemma_prefixed(done: Seq<PackageView>, rest: Bumped)
    requires
        done.len() == 0,
    ensures
        prefixed(done, rest) == rest,
{
    if let Bumped::Done(list) = rest {
        assert(done + list =~= list);
    }
}

/// The numbers of the next pre-releases of packages, the highest of them: one for none.
pub open spec fn next_number(
    tags: Seq<Seq<char>>,
    packages: Seq<PackageView>,
    channel: Channel,
) -> nat
    decreases packages.len(),
{
    if packages.len() == 0 {
        1
    } else {
        let others = next_number(tags, packages.drop_last(), channel);
        let own = highest(
            tags,
            prerelease_prefix(packages.last().name, packages.last().version, channel.name()),
            false,
        ) + 1;
        if own > others {
            own
        } else {
            others
        }
    }
}

fn number_for(tags: &[String], packages: &[Package], channel: Channel) -> (r: Option<u32>)
    ensures
        match r {
            Some(number) => number == next_number(
                views(tags@),
                package_views(packages@),
                channel,
            ),
            None => next_number(views(tags@), package_views(packages@), channel) > u32::MAX,
        },
{
    let n: usize = packages.len();
    let ghost all = package_views(packages@);
    let mut number: u32 = 1;
    for i in 0..n
        invariant
            n == packages@.len(),
            all == package_views(packages@),
            number == next_number(views(tags@), all.take(i as int), channel),
    {
        proof {
            assert(all.take(i + 1).drop_last() =~= all.take(i as int));
            assert(all.take(i + 1).last() == packages@[i as int]@);
        }
        match checked_prerelease_number(
            tags,
            packages[i].name.as_str(),
            packages[i].version.as_str(),
            channel.as_str(),
        ) {
            Some(own) => {
                if own > number {
                    number = own;
                }
            },
            None => {
                proof {
                    lemma_number_grows(views(tags@), all, channel, i + 1);
                }
                return None;
            },
        }
    }
    assert(all.take(n as int) =~= all);
    Some(number)
}

proof fn lemma_number_grows(
    tags: Seq<Seq<char>>,
    packages: Seq<PackageView>,
    channel: Channel,
    n: int,
)
    requires
        0 <= n <= packages.len(),
    ensures
        next_number(tags, packages.take(n), channel) <= next_number(tags, packages, channel),
    decreases packages.len() - n,
{
    if n < packages.len() {
        assert(packages.take(n + 1).drop_last() =~= packages.take(n));
        lemma_number_grows(tags, packages, channel, n + 1);
    } else {
        assert(packages.take(n) =~= packages);
    }
}

/// The number of a release on a channel.
pub open spec fn number_on(
    tags: Seq<Seq<char>>,
    packages: Seq<PackageView>,
    channel: Channel,
) -> nat {
    if channel == Channel::Stable {
        0
    } else {
        next_number(tags, packages, channel)
    }
}

/// What follows the versions of a release that is not stable.
pub open spec fn suffix_of(channel: Channel, number: nat) -> Seq<char> {
    if channel == Channel::Stable {
        ""@
    } else {
        "-"@ + channel.name() + "."@ + decimal(number)
    }
}

fn suffix_for(channel: Channel, number: u32) -> (r: String)
    ensures
        r@ == suffix_of(channel, number as nat),
{
    match channel {
        Channel::Stable => "".to_string(),
        _ => {
            let mut out = glue3("-", channel.as_str(), ".");
            out.append(to_decimal(number as u64).as_str());
            out
        },
    }
}

/// The tag that marks the release of a package.
pub open spec fn marker_of(package: PackageView, suffix: Seq<char>) -> Seq<char> {
    package.name + "-v"@ + package.version + suffix
}

/// The first of the packages' markers that is there already.
pub open spec fn used_marker(
    tags: Seq<Seq<char>>,
    packages: Seq<PackageView>,
    suffix: Seq<char>,
) -> Option<Seq<char>>
    decreases packages.len(),
{
    if packages.len() == 0 {
        None
    } else if tags.contains(marker_of(packages[0], suffix)) {
        Some(marker_of(packages[0], suffix))
    } else {
        used_marker(tags, packages.skip(1), suffix)
    }
}

fn find_marker(tags: &[String], packages: &[Package], suffix: &str) -> (r: Option<String>)
    ensures
        view_opt(r) == used_marker(
            views(tags@),
            package_views(packages@),
            suffix@,
        ),
{
    let n: usize = packages.len();
    let ghost all = package_views(packages@);
    assert(all.skip(0) =~= all);
    for i in 0..n
        invariant
            n == packages@.len(),
            all == package_views(packages@),
            used_marker(views(tags@), all, suffix@) == used_marker(
                views(tags@),
                all.skip(i as int),
                suffix@,
            ),
    {
        assert(all.skip(i as int)[0] == packages@[i as int]@);
        assert(all.skip(i as int).skip(1) =~= all.skip(i + 1));
        let mut marker = glue3(packages[i].name.as_str(), "-v", packages[i].version.as_str());
        marker.append(suffix);
        if listed(tags, marker.as_str()) {
            return Some(marker);
        }
    }
    None
}

/// The packages with their versions, one after another.
pub open spec fn named(packages: Seq<PackageView>, between: Seq<char>) -> Seq<Seq<char>> {
    packages.map_values(|package: PackageView| package.name + between + package.version)
}

fn names_of(packages: &[Package], between: &str) -> (r: Vec<String>)
    ensures
        views(r@) == named(package_views(packages@), between@),
{
    let n: usize = packages.len();
    let ghost all = named(package_views(packages@), between@);
    let mut out: Vec<String> = Vec::new();
    for i in 0..n
        invariant
            n == packages@.len() == all.len(),
            all == named(package_views(packages@), between@),
            views(out@) == all.take(i as int),
    {
        let ghost had = views(out@);
        let text = glue3(packages[i].name.as_str(), between, packages[i].version.as_str());
        assert(all[i as int] == text@);
        out.push(text);
        assert(views(out@) =~= had.push(all[i as int]));
        assert(all.take(i + 1) =~= all.take(i as int).push(all[i as int]));
    }
    assert(all.take(n as int) =~= all);
    out
}

/// A release that is ready to be made.
#[derive(Debug, Clone, PartialEq, Eq)]
pub struct ReleasePlan {
    /// The packages, with their new versions.
    pub packages: Vec<Package>,
    pub channel: Channel,
    pub tag: String,
    /// What follows the versions.
    pub suffix: String,
    /// The packages and versions, as the tag names them.
    pub manifest: String,
    /// The packages and versions, as the commit names them.
    pub subject: String,
}

impl ReleasePlan {
    /// Whether this is the plan of a release of the packages, which have their new versions.
    pub open spec fn is_for(
        self,
        packages: Seq<PackageView>,
        channel: Channel,
        tags: Seq<Seq<char>>,
        today: Seq<char>,
    ) -> bool {
        let number = number_on(tags, packages, channel);
        &&& package_views(self.packages@) == packages
        &&& self.channel == channel
        &&& self.tag@ == tag_in(release_base(tags, today), channel, number)
        &&& self.suffix@ == suffix_of(channel, number)
        &&& self.manifest@ == joined(named(packages, "@"@), " "@)
        &&& self.subject@ == joined(named(packages, " "@), ", "@)
    }

    /// The lines that show the plan.
    pub fn lines(&self) -> (r: Vec<String>)
        ensures
            views(r@) == seq![
                "versions  "@ + self.manifest@ + self.suffix@,
                "tag       "@ + self.tag@,
                "channel   "@ + self.channel.name(),
            ],
    {
        let lines = vec![
            glue3("versions  ", self.manifest.as_str(), self.suffix.as_str()),
            glue("tag       ", self.tag.as_str()),
            glue("channel   ", self.channel.as_str()),
        ];
        assert(views(lines@) =~= seq![
            "versions  "@ + self.manifest@ + self.suffix@,
            "tag       "@ + self.tag@,
            "channel   "@ + self.channel.name(),
        ]);
        lines
    }

    /// The question before anything is done.
    pub fn question(&self, branch: &str) -> (r: String)
        ensures
            r@ == "Commit, push "@ + branch@ + " and "@ + self.tag@ + "?"@,
    {
        let mut out = glue3("Commit, push ", branch, " and ");
        out.append(self.tag.as_str());
        out.append("?");
        out
    }

    /// The message of the commit.
    pub open spec fn commit_text(self) -> Seq<char> {
        "chore(release): "@ + self.subject@
    }

    /// The message of the tag.
    pub open spec fn tag_text(self) -> Seq<char> {
        self.tag@ + "\n\npackages: "@ + self.manifest@ + "\nchannel: "@ + self.channel.name()
            + "\n"@
    }

    /// The message of the commit.
    pub fn commit_message(&self) -> (r: String)
        ensures
            r@ == self.commit_text(),
    {
        glue("chore(release): ", self.subject.as_str())
    }

    /// The message of the tag.
    pub fn tag_message(&self) -> (r: String)
        ensures
            r@ == self.tag_text(),
    {
        let mut out = glue3(self.tag.as_str(), "\n\npackages: ", self.manifest.as_str());
        out.append("\nchannel: ");
        out.append(self.channel.as_str());
        out.append("\n");
        out
    }
}

/// Whether the numbers of a release have room to grow.
pub open spec fn numbers_fit(
    tags: Seq<Seq<char>>,
    packages: Seq<PackageView>,
    channel: Channel,
    today: Seq<char>,
) -> bool {
    number_on(tags, packages, channel) <= u32::MAX && highest(tags, day_prefix(today), true)
        < u32::MAX
}

/// What the plan of a release of packages with their next versions comes to.
pub open spec fn is_plan(
    packages: Seq<PackageView>,
    channel: Channel,
    tags: Seq<Seq<char>>,
    today: Seq<char>,
    r: Result<Option<ReleasePlan>, PlanError>,
) -> bool {
    if !numbers_fit(tags, packages, channel, today) {
        r matches Ok(None)
    } else {
        match used_marker(
            tags,
            packages,
            suffix_of(channel, number_on(tags, packages, channel)),
        ) {
            Some(marker) => r matches Err(PlanError::MarkerExists(text)) && text@ == marker,
            None => r matches Ok(Some(plan)) && plan.is_for(packages, channel, tags, today),
        }
    }
}

/// The plan of a release of packages with their next versions, or nothing where a number in it
/// has no room to grow.
pub fn plan_bumped(packages: Vec<Package>, channel: Channel, tags: &[String], today: &str) -> (r:
    Result<Option<ReleasePlan>, PlanError>)
    ensures
        is_plan(package_views(packages@), channel, views(tags@), today@, r),
{
    let number: u32 = match channel {
        Channel::Stable => 0,
        _ => match number_for(tags, packages.as_slice(), channel) {
            Some(number) => number,
            None => {
                return Ok(None);
            },
        },
    };
    let base = match checked_release_base(tags, today) {
        Some(base) => base,
        None => {
            return Ok(None);
        },
    };
    let suffix = suffix_for(channel, number);
    if let Some(marker) = find_marker(tags, packages.as_slice(), suffix.as_str()) {
        return Err(PlanError::MarkerExists(marker));
    }
    let manifest = join(names_of(packages.as_slice(), "@").as_slice(), " ");
    let subject = join(names_of(packages.as_slice(), " ").as_slice(), ", ");
    let tag = release_tag(base.as_str(), channel, number);
    Ok(Some(ReleasePlan { packages, channel, tag, suffix, manifest, subject }))
}

/// The plan of a release, or nothing where a number in it has no room to grow.
pub fn plan_release(
    packages: Vec<Package>,
    bump: Bump,
    channel: Channel,
    tags: &[String],
    today: &str,
) -> (r: Result<Option<ReleasePlan>, PlanError>)
    ensures
        match bump_all(package_views(packages@), bump) {
            Bumped::Invalid(text) => r matches Err(PlanError::Version(error)) && error.message@
                == "invalid version "@ + text,
            Bumped::Full => r matches Ok(None),
            Bumped::Done(list) => is_plan(list, channel, views(tags@), today@, r),
        },
{
    match bump_packages(packages, bump) {
        Err(error) => Err(PlanError::Version(error)),
        Ok(None) => Ok(None),
        Ok(Some(list)) => plan_bumped(list, channel, tags, today),
    }
}

proof fn lemma_markers_are_new(
    tags: Seq<Seq<char>>,
    packages: Seq<PackageView>,
    suffix: Seq<char>,
    i: int,
)
    requires
        used_marker(tags, packages, suffix) is None,
        0 <= i < packages.len(),
    ensures
        !tags.contains(marker_of(packages[i], suffix)),
    decreases packages.len(),
{
    if i > 0 {
        lemma_markers_are_new(tags, packages.skip(1), suffix, i - 1);
    }
}

/// A planned release has a tag and markers that are not there yet.
pub proof fn law_planned_tags_are_new(
    plan: ReleasePlan,
    packages: Seq<PackageView>,
    channel: Channel,
    tags: Seq<Seq<char>>,
    today: Seq<char>,
)
    requires
        plan.is_for(packages, channel, tags, today),
        numbers_fit(tags, packages, channel, today),
        used_marker(tags, packages, suffix_of(channel, number_on(tags, packages, channel)))
            is None,
    ensures
        !tags.contains(plan.tag@),
        forall|i: int|
            0 <= i < packages.len() ==> !tags.contains(
                marker_of(#[trigger] packages[i], plan.suffix@),
            ),
{
    let number = number_on(tags, packages, channel);
    law_next_release_is_new(tags, today, channel, number);
    assert forall|i: int| 0 <= i < packages.len() implies !tags.contains(
        marker_of(#[trigger] packages[i], plan.suffix@),
    ) by {
        lemma_markers_are_new(tags, packages, plan.suffix@, i);
    }
}

// Plans in writing.

/// The name of a channel in tags.
pub open spec fn is_word_of(channel: Channel, word: Seq<char>) -> bool {
    &&& channel == Channel::Rc ==> word == "rc"@
    &&& channel == Channel::Beta ==> word == "beta"@
    &&& channel == Channel::Alpha ==> word == "alpha"@
    &&& channel == Channel::Stable ==> word == "stable"@
}

proof fn lemma_number_above(
    tags: Seq<Seq<char>>,
    packages: Seq<PackageView>,
    channel: Channel,
    k: int,
)
    requires
        0 <= k < packages.len(),
    ensures
        next_number(tags, packages, channel) >= highest(
            tags,
            prerelease_prefix(packages[k].name, packages[k].version, channel.name()),
            false,
        ) + 1,
    decreases packages.len(),
{
    if k < packages.len() - 1 {
        lemma_number_above(tags, packages.drop_last(), channel, k);
    }
}

/// A release that is not stable has one number for all its packages, which is above the number of
/// each earlier pre-release of any of them on the same channel. Its tag and what follows the
/// versions end with the channel and the number.
pub proof fn law_prereleases_have_one_number(
    packages: Vec<Package>,
    channel: Channel,
    tags: &[String],
    today: &str,
    r: Result<Option<ReleasePlan>, PlanError>,
    plan: ReleasePlan,
    word: Seq<char>,
    k: int,
    i: int,
    used: u32,
)
    requires
        call_ensures(plan_bumped, (packages, channel, tags, today), r),
        r == Ok::<Option<ReleasePlan>, PlanError>(Some(plan)),
        channel != Channel::Stable,
        is_word_of(channel, word),
        0 <= k < packages@.len(),
        0 <= i < tags@.len(),
        tags@[i]@ == packages@[k].name@ + "-v"@ + packages@[k].version@ + "-"@ + word + "."@
            + decimal(used as nat),
    ensures
        exists|number: nat, base: Seq<char>|
            number > used && plan.suffix@ == "-"@ + word + "."@ + decimal(number) && plan.tag@
                == #[trigger] (base + "-"@ + word + "."@ + decimal(number)) && has_prefix(
                base,
                "release-v"@ + today@ + "."@,
            ),
{
    let all = views(tags@);
    let list = package_views(packages@);
    let number = number_on(all, list, channel);
    let prefix = prerelease_prefix(list[k].name, list[k].version, channel.name());
    assert(list[k] == packages@[k]@);
    assert(word == channel.name());
    assert(all[i] == prefix + decimal(used as nat));
    lemma_number_above(all, list, channel, k);
    law_next_number_is_least(all, prefix, false, 1);
    lemma_number_behind(prefix, used);
    assert(number_in(all[i], prefix, false) == Some(used));
    let base = release_base(all, today@);
    assert(base.take(day_prefix(today@).len() as int) =~= day_prefix(today@));
    assert(plan.tag@ == base + "-"@ + word + "."@ + decimal(number));
}

/// A stable release has a tag without a channel, nothing follows its versions, and none of its
/// packages has a tag of its version yet.
pub proof fn law_stable_releases_are_new_versions(
    packages: Vec<Package>,
    channel: Channel,
    tags: &[String],
    today: &str,
    r: Result<Option<ReleasePlan>, PlanError>,
    plan: ReleasePlan,
    k: int,
)
    requires
        call_ensures(plan_bumped, (packages, channel, tags, today), r),
        r == Ok::<Option<ReleasePlan>, PlanError>(Some(plan)),
        channel == Channel::Stable,
        0 <= k < packages@.len(),
    ensures
        plan.suffix@.len() == 0,
        exists|number: nat|
            number > 0 && plan.tag@ == "release-v"@ + today@ + "."@ + #[trigger] decimal(number),
        !views(tags@).contains(packages@[k].name@ + "-v"@ + packages@[k].version@),
{
    reveal_strlit("");
    let all = views(tags@);
    let list = package_views(packages@);
    assert(list[k] == packages@[k]@);
    lemma_markers_are_new(all, list, ""@, k);
    assert(marker_of(list[k], ""@) =~= list[k].name + "-v"@ + list[k].version);
    let number = highest(all, day_prefix(today@), true) + 1;
    assert(plan.tag@ == "release-v"@ + today@ + "."@ + decimal(number));
}

/// A release whose package has a tag of its version already is refused, and the tag is named.
pub proof fn law_tagged_versions_are_refused(
    packages: Vec<Package>,
    tags: &[String],
    today: &str,
    r: Result<Option<ReleasePlan>, PlanError>,
)
    requires
        call_ensures(plan_bumped, (packages, Channel::Stable, tags, today), r),
        packages@.len() == 1,
        views(tags@).contains(packages@[0].name@ + "-v"@ + packages@[0].version@),
    ensures
        r matches Ok(plan) ==> plan is None,
        r matches Err(error) ==> error.says() == "marker tag "@ + (packages@[0].name@ + "-v"@
            + packages@[0].version@) + " already exists"@,
{
    reveal_strlit("");
    let list = package_views(packages@);
    assert(list[0] == packages@[0]@);
    assert(marker_of(list[0], ""@) =~= list[0].name + "-v"@ + list[0].version);
}

/// A plan keeps its packages and its channel, and writes them down by name and version: in the
/// tag with an at sign between the two, in the commit with a space.
pub proof fn law_plans_name_their_packages(
    packages: Vec<Package>,
    channel: Channel,
    tags: &[String],
    today: &str,
    r: Result<Option<ReleasePlan>, PlanError>,
    plan: ReleasePlan,
)
    requires
        call_ensures(plan_bumped, (packages, channel, tags, today), r),
        r == Ok::<Option<ReleasePlan>, PlanError>(Some(plan)),
    ensures
        package_views(plan.packages@) == package_views(packages@),
        plan.channel == channel,
        packages@.len() == 1 ==> plan.manifest@ == packages@[0].name@ + "@"@
            + packages@[0].version@ && plan.subject@ == packages@[0].name@ + " "@
            + packages@[0].version@,
        packages@.len() == 2 ==> plan.manifest@ == packages@[0].name@ + "@"@
            + packages@[0].version@ + " "@ + (packages@[1].name@ + "@"@ + packages@[1].version@),
        packages@.len() == 2 ==> plan.subject@ == packages@[0].name@ + " "@ + packages@[0].version@
            + ", "@ + (packages@[1].name@ + " "@ + packages@[1].version@),
{
    let list = package_views(packages@);
    let a = named(list, "@"@);
    let b = named(list, " "@);
    if packages@.len() > 0 {
        assert(list[0] == packages@[0]@);
        let rest = a.skip(1);
        let others = b.skip(1);
        assert(a =~= seq![a[0]] + rest);
        assert(b =~= seq![b[0]] + others);
        law_joined_parts_stand_between_separators(a[0], rest, " "@);
        law_joined_parts_stand_between_separators(b[0], others, ", "@);
        if packages@.len() == 2 {
            assert(list[1] == packages@[1]@);
            assert(rest =~= seq![a[1]]);
            assert(others =~= seq![b[1]]);
        }
    }
}

/// What is shown, asked, committed and tagged names the tag, the versions and the channel.
pub proof fn law_plans_are_told_in_full(
    plan: &ReleasePlan,
    branch: &str,
    word: Seq<char>,
    lines: Vec<String>,
    question: String,
    commit: String,
    tag: String,
)
    requires
        call_ensures(ReleasePlan::lines, (plan,), lines),
        call_ensures(ReleasePlan::question, (plan, branch), question),
        call_ensures(ReleasePlan::commit_message, (plan,), commit),
        call_ensures(ReleasePlan::tag_message, (plan,), tag),
        is_word_of(plan.channel, word),
    ensures
        lines@.len() == 3,
        views(lines@)[0] == "versions  "@ + plan.manifest@ + plan.suffix@,
        views(lines@)[1] == "tag       "@ + plan.tag@,
        views(lines@)[2] == "channel   "@ + word,
        question@ == "Commit, push "@ + branch@ + " and "@ + plan.tag@ + "?"@,
        commit@ == "chore(release): "@ + plan.subject@,
        tag@ == plan.tag@ + "\n\npackages: "@ + plan.manifest@ + "\nchannel: "@ + word + "\n"@,
{
    assert(views(lines@).len() == 3);
}

/// Every package of a release keeps its name and its file, and has the version that the bump of its
/// own leads to.
pub proof fn law_every_package_is_bumped(
    packages: Vec<Package>,
    bump: Bump,
    r: Result<Option<Vec<Package>>, VersionError>,
    new: Vec<Package>,
    k: int,
    version: &str,
    own: Result<Option<String>, VersionError>,
)
    requires
        call_ensures(bump_packages, (packages, bump), r),
        0 <= k < packages@.len(),
        version@ == packages@[k].version@,
        call_ensures(checked_bump, (version, bump), own),
    ensures
        r == Ok::<Option<Vec<Package>>, VersionError>(Some(new)) ==> {
            &&& new@.len() == packages@.len()
            &&& new@[k].name@ == packages@[k].name@
            &&& new@[k].manifest@ == packages@[k].manifest@
            &&& new@[k].version_file == packages@[k].version_file
            &&& own matches Ok(Some(text)) && new@[k].version@ == text@
        },
        own is Err ==> !(r matches Ok(Some(_))),
        own matches Ok(None) ==> !(r matches Ok(Some(_))),
        k == 0 && own is Err ==> (r matches Err(error) && error.message@ == "invalid version "@
            + version@),
{
    lemma_bump_all(package_views(packages@), bump, k);
    if r == Ok::<Option<Vec<Package>>, VersionError>(Some(new)) {
        let list = package_views(new@);
        assert(list[k] == new@[k]@);
    }
}

proof fn lemma_bump_all(packages: Seq<PackageView>, bump: Bump, k: int)
    requires
        0 <= k < packages.len(),
    ensures
        bump_all(packages, bump) matches Bumped::Done(list) ==> {
            &&& list.len() == packages.len()
            &&& parsed(packages[k].version) matches Some(v) && bump_fits(v, bump) && list[k] == (
            PackageView { version: bumped(v, bump).text(), ..packages[k] })
        },
    decreases packages.len(),
{
    let rest = packages.skip(1);
    if k > 0 {
        assert(rest[k - 1] == packages[k]);
        lemma_bump_all(rest, bump, k - 1);
    } else if rest.len() > 0 {
        lemma_bump_all(rest, bump, 0);
    }
}

/// A release is planned for the packages with their next versions.
pub proof fn law_releases_are_planned_for_next_versions(
    packages: Vec<Package>,
    bump: Bump,
    channel: Channel,
    tags: &[String],
    today: &str,
    r: Result<Option<ReleasePlan>, PlanError>,
    bumped: Result<Option<Vec<Package>>, VersionError>,
    message: String,
)
    requires
        call_ensures(plan_release, (packages, bump, channel, tags, today), r),
        call_ensures(bump_packages, (packages, bump), bumped),
        r matches Err(error) ==> call_ensures(PlanError::message, (&error,), message),
    ensures
        r matches Ok(Some(plan)) ==> (bumped matches Ok(Some(new)) && package_views(plan.packages@)
            == package_views(new@) && plan.channel == channel),
        bumped matches Ok(None) ==> (r matches Ok(None)),
        bumped matches Err(error) ==> r is Err && message@ == error.message@,
        bumped is Ok && r is Err ==> has_prefix(message@, "marker tag "@),
{
    if bumped is Ok && r is Err {
        let marker = r->Err_0->MarkerExists_0@;
        assert(message@ =~= "marker tag "@ + (marker + " already exists"@));
        assert(message@.take("marker tag "@.len() as int) =~= "marker tag "@);
    }
}

/// Where there are no tags at all, every release is the first of its day and of its channel.
pub proof fn law_first_releases_have_the_number_one(
    packages: Vec<Package>,
    channel: Channel,
    tags: &[String],
    today: &str,
    r: Result<Option<ReleasePlan>, PlanError>,
)
    requires
        call_ensures(plan_bumped, (packages, channel, tags, today), r),
        tags@.len() == 0,
    ensures
        r matches Ok(Some(plan)) && {
            &&& channel is Stable ==> plan.tag@ == "release-v"@ + today@ + ".1"@
            &&& channel is Rc ==> plan.tag@ == "release-v"@ + today@ + ".1-rc.1"@ && plan.suffix@
                == "-rc.1"@
            &&& channel is Beta ==> plan.tag@ == "release-v"@ + today@ + ".1-beta.1"@
                && plan.suffix@ == "-beta.1"@
            &&& channel is Alpha ==> plan.tag@ == "release-v"@ + today@ + ".1-alpha.1"@
                && plan.suffix@ == "-alpha.1"@
        },
{
    let all = views(tags@);
    let list = package_views(packages@);
    assert(all.len() == 0);
    lemma_first_number(all, list, channel);
    lemma_no_marker(all, list, suffix_of(channel, number_on(all, list, channel)));
    assert(decimal(1) =~= seq!['1']);
    reveal_strlit(".");
    reveal_strlit("-");
    reveal_strlit(".1");
    reveal_strlit("rc");
    reveal_strlit("beta");
    reveal_strlit("alpha");
    reveal_strlit("-rc.1");
    reveal_strlit("-beta.1");
    reveal_strlit("-alpha.1");
    reveal_strlit(".1-rc.1");
    reveal_strlit(".1-beta.1");
    reveal_strlit(".1-alpha.1");
    let plan = r->Ok_0->0;
    match channel {
        Channel::Stable => {
            assert(plan.tag@ =~= "release-v"@ + today@ + ".1"@);
        },
        Channel::Rc => {
            assert(plan.tag@ =~= "release-v"@ + today@ + ".1-rc.1"@);
            assert(plan.suffix@ =~= "-rc.1"@);
        },
        Channel::Beta => {
            assert(plan.tag@ =~= "release-v"@ + today@ + ".1-beta.1"@);
            assert(plan.suffix@ =~= "-beta.1"@);
        },
        Channel::Alpha => {
            assert(plan.tag@ =~= "release-v"@ + today@ + ".1-alpha.1"@);
            assert(plan.suffix@ =~= "-alpha.1"@);
        },
    }
}

proof fn lemma_first_number(tags: Seq<Seq<char>>, packages: Seq<PackageView>, channel: Channel)
    requires
        tags.len() == 0,
    ensures
        next_number(tags, packages, channel) == 1,
    decreases packages.len(),
{
    if packages.len() > 0 {
        lemma_first_number(tags, packages.drop_last(), channel);
    }
}

proof fn lemma_no_marker(tags: Seq<Seq<char>>, packages: Seq<PackageView>, suffix: Seq<char>)
    requires
        tags.len() == 0,
    ensures
        used_marker(tags, packages, suffix) is None,
    decreases packages.len(),
{
    if packages.len() > 0 {
        lemma_no_marker(tags, packages.skip(1), suffix);
    }
}

/// The first package whose marker is there already is the one that is named.
pub proof fn law_the_first_used_marker_is_named(
    packages: Vec<Package>,
    tags: &[String],
    today: &str,
    r: Result<Option<ReleasePlan>, PlanError>,
    k: int,
)
    requires
        call_ensures(plan_bumped, (packages, Channel::Stable, tags, today), r),
        0 <= k < packages@.len(),
        views(tags@).contains(packages@[k].name@ + "-v"@ + packages@[k].version@),
        forall|j: int|
            0 <= j < k ==> !views(tags@).contains(
                (#[trigger] packages@[j]).name@ + "-v"@ + packages@[j].version@,
            ),
    ensures
        r matches Err(error) ==> error.says() == "marker tag "@ + (packages@[k].name@ + "-v"@
            + packages@[k].version@) + " already exists"@,
        !(r matches Ok(Some(_))),
{
    let list = package_views(packages@);
    let all = views(tags@);
    reveal_strlit("");
    assert forall|j: int| 0 <= j <= k implies marker_of(#[trigger] list[j], ""@)
        == packages@[j].name@ + "-v"@ + packages@[j].version@ by {
        assert(list[j] == packages@[j]@);
        assert(marker_of(list[j], ""@) =~= packages@[j].name@ + "-v"@ + packages@[j].version@);
    }
    assert forall|j: int| 0 <= j < k implies !all.contains(marker_of(#[trigger] list[j], ""@)) by {
        assert(!all.contains(packages@[j].name@ + "-v"@ + packages@[j].version@));
    }
    lemma_used_marker(all, list, ""@, k);
}

proof fn lemma_used_marker(
    tags: Seq<Seq<char>>,
    packages: Seq<PackageView>,
    suffix: Seq<char>,
    k: int,
)
    requires
        0 <= k < packages.len(),
        tags.contains(marker_of(packages[k], suffix)),
        forall|j: int| 0 <= j < k ==> !tags.contains(marker_of(#[trigger] packages[j], suffix)),
    ensures
        used_marker(tags, packages, suffix) == Some(marker_of(packages[k], suffix)),
    decreases packages.len(),
{
    if k > 0 {
        assert(!tags.contains(marker_of(packages[0], suffix)));
        let rest = packages.skip(1);
        assert forall|j: int| 0 <= j < k - 1 implies !tags.contains(
            marker_of(#[trigger] rest[j], suffix),
        ) by {
            assert(rest[j] == packages[j + 1]);
        }
        lemma_used_marker(tags, rest, suffix, k - 1);
    }
}

/// A release that is not stable has a number above one only where a tag of one of its packages on
/// the same channel has the number before it.
pub proof fn law_release_numbers_follow_a_package(
    packages: Vec<Package>,
    channel: Channel,
    tags: &[String],
    today: &str,
    r: Result<Option<ReleasePlan>, PlanError>,
    plan: ReleasePlan,
    word: Seq<char>,
)
    requires
        call_ensures(plan_bumped, (packages, channel, tags, today), r),
        r == Ok::<Option<ReleasePlan>, PlanError>(Some(plan)),
        channel != Channel::Stable,
        is_word_of(channel, word),
    ensures
        exists|number: nat|
            plan.suffix@ == "-"@ + word + "."@ + #[trigger] decimal(number) && number > 0 && (number
                > 1 ==> exists|k: int, i: int|
                0 <= k < packages@.len() && 0 <= i < tags@.len() && has_prefix(
                    #[trigger] tags@[i]@,
                    (#[trigger] packages@[k]).name@ + "-v"@ + packages@[k].version@ + "-"@ + word
                        + "."@,
                )),
{
    let all = views(tags@);
    let list = package_views(packages@);
    let number = next_number(all, list, channel);
    assert(plan.suffix@ == "-"@ + word + "."@ + decimal(number));
    lemma_number_follows(all, list, channel);
    if number > 1 {
        let k = choose|k: int|
            0 <= k < list.len() && number == highest(
                all,
                prerelease_prefix((#[trigger] list[k]).name, list[k].version, channel.name()),
                false,
            ) + 1;
        assert(list[k] == packages@[k]@);
        let start = prerelease_prefix(list[k].name, list[k].version, channel.name());
        lemma_highest_is_used(all, start, false);
        let i = choose|i: int|
            0 <= i < all.len() && number_in(#[trigger] all[i], start, false) == Some(
                highest(all, start, false) as u32,
            );
        assert(all[i] == tags@[i]@);
        assert(has_prefix(tags@[i]@, start));
    }
}

proof fn lemma_number_follows(tags: Seq<Seq<char>>, packages: Seq<PackageView>, channel: Channel)
    ensures
        next_number(tags, packages, channel) > 0,
        next_number(tags, packages, channel) > 1 ==> exists|k: int|
            0 <= k < packages.len() && next_number(tags, packages, channel) == highest(
                tags,
                prerelease_prefix(
                    (#[trigger] packages[k]).name,
                    packages[k].version,
                    channel.name(),
                ),
                false,
            ) + 1,
    decreases packages.len(),
{
    if packages.len() > 0 {
        let first = packages.drop_last();
        lemma_number_follows(tags, first, channel);
        let number = next_number(tags, packages, channel);
        if number > 1 && number == next_number(tags, first, channel) {
            let k = choose|k: int|
                0 <= k < first.len() && number == highest(
                    tags,
                    prerelease_prefix((#[trigger] first[k]).name, first[k].version, channel.name()),
                    false,
                ) + 1;
            assert(packages[k] == first[k]);
        } else {
            assert(packages[packages.len() - 1] == packages.last());
        }
    }
}

/// The tag names all packages, with an at sign before each version and a space between any two;
/// the commit names them with a space before each version and a comma between any two.
pub proof fn law_plans_name_every_package(
    packages: Vec<Package>,
    channel: Channel,
    tags: &[String],
    today: &str,
    r: Result<Option<ReleasePlan>, PlanError>,
    plan: ReleasePlan,
)
    requires
        call_ensures(plan_bumped, (packages, channel, tags, today), r),
        r == Ok::<Option<ReleasePlan>, PlanError>(Some(plan)),
    ensures
        plan.manifest@ == joined(
            Seq::new(
                packages@.len(),
                |k: int| packages@[k].name@ + "@"@ + packages@[k].version@,
            ),
            " "@,
        ),
        plan.subject@ == joined(
            Seq::new(
                packages@.len(),
                |k: int| packages@[k].name@ + " "@ + packages@[k].version@,
            ),
            ", "@,
        ),
{
    let list = package_views(packages@);
    assert(named(list, "@"@) =~= Seq::new(
        packages@.len(),
        |k: int| packages@[k].name@ + "@"@ + packages@[k].version@,
    ));
    assert(named(list, " "@) =~= Seq::new(
        packages@.len(),
        |k: int| packages@[k].name@ + " "@ + packages@[k].version@,
    ));
}

} // verus!
