//! Versions and tags of releases.

use crate::number::{
    all_digits, decimal, lemma_decimal, lemma_read_decimal, parse_u32, read_u32, to_decimal, value,
};
use crate::text::{
    cut_at, glue, glue3, has_prefix, is_digit, law_parts_end_at_separators, lemma_run_len_is, only,
    same, split, split_on, split_once, starts_with, strip_prefix, strip_prefixes, view_opt, views,
    without_prefix, without_prefixes,
};
use crate::version::{
    law_reading_gives_back_what_was_written, law_version_order_is_transitive,
    law_versions_are_totally_ordered, parsed, Version, VersionView,
};
use vstd::prelude::*;

verus! {

/// Which part of a version grows.
#[derive(Debug, Clone, Copy, PartialEq, Eq, Structural)]
pub enum Bump {
    Patch,
    Minor,
    Major,
    Current,
}

/// How finished a release is.
#[derive(Debug, Clone, Copy, PartialEq, Eq, Structural)]
pub enum Channel {
    Stable,
    Rc,
    Beta,
    Alpha,
}

impl Channel {
    pub open spec fn name(self) -> Seq<char> {
        match self {
            Channel::Stable => "stable"@,
            Channel::Rc => "rc"@,
            Channel::Beta => "beta"@,
            Channel::Alpha => "alpha"@,
        }
    }

    pub fn as_str(self) -> (r: &'static str)
        ensures
            r@ == self.name(),
    {
        match self {
            Channel::Stable => "stable",
            Channel::Rc => "rc",
            Channel::Beta => "beta",
            Channel::Alpha => "alpha",
        }
    }
}

// Bumps.

/// Why a text is no version.
#[derive(Debug)]
pub struct VersionError {
    pub message: String,
    pub cause: semver::Error,
}

/// Whether the number that grows can.
pub open spec fn bump_fits(version: VersionView, bump: Bump) -> bool {
    match bump {
        Bump::Patch => version.patch < u64::MAX,
        Bump::Minor => version.minor < u64::MAX,
        Bump::Major => version.major < u64::MAX,
        Bump::Current => true,
    }
}

/// The next version: the number of the bump grows by one and those behind it start anew; the
/// pre-release and the build go.
pub open spec fn bumped(version: VersionView, bump: Bump) -> VersionView {
    let (major, minor, patch) = match bump {
        Bump::Patch => (version.major, version.minor, (version.patch + 1) as u64),
        Bump::Minor => (version.major, (version.minor + 1) as u64, 0),
        Bump::Major => ((version.major + 1) as u64, 0, 0),
        Bump::Current => (version.major, version.minor, version.patch),
    };
    VersionView { major, minor, patch, pre: seq![], build: seq![] }
}

/// A bump other than the current version gives a later one.
pub proof fn law_bumps_go_forward(version: VersionView, bump: Bump)
    requires
        bump_fits(version, bump),
        bump != Bump::Current,
    ensures
        version.older(bumped(version, bump)),
        bumped(version, bump).valid(),
{
}

fn bump_version(version: Version, bump: Bump) -> (r: Option<String>)
    ensures
        match r {
            Some(text) => bump_fits(version@, bump) && text@ == bumped(version@, bump).text(),
            None => !bump_fits(version@, bump),
        },
{
    let mut next = Version {
        major: version.major,
        minor: version.minor,
        patch: version.patch,
        pre: String::new(),
        build: String::new(),
    };
    match bump {
        Bump::Patch => {
            if next.patch == u64::MAX {
                return None;
            }
            next.patch = next.patch + 1;
        },
        Bump::Minor => {
            if next.minor == u64::MAX {
                return None;
            }
            next.minor = next.minor + 1;
            next.patch = 0;
        },
        Bump::Major => {
            if next.major == u64::MAX {
                return None;
            }
            next.major = next.major + 1;
            next.minor = 0;
            next.patch = 0;
        },
        Bump::Current => {},
    }
    assert(next@ =~= bumped(version@, bump));
    Some(next.text())
}

/// The next version, or nothing where the number that grows cannot.
pub fn checked_bump(current: &str, bump: Bump) -> (r: Result<Option<String>, VersionError>)
    ensures
        match parsed(current@) {
            None => r matches Err(error) && error.message@ == "invalid version "@ + current@,
            Some(version) => if bump_fits(version, bump) {
                r matches Ok(Some(text)) && text@ == bumped(version, bump).text()
            } else {
                r matches Ok(None)
            },
        },
{
    match Version::parse(current) {
        Ok(version) => Ok(bump_version(version, bump)),
        Err(cause) => Err(VersionError { message: glue("invalid version ", current), cause }),
    }
}

/// The next version.
pub fn apply_bump(current: &str, bump: Bump) -> (r: Result<String, VersionError>)
    requires
        parsed(current@) matches Some(version) ==> bump_fits(version, bump),
    ensures
        match parsed(current@) {
            None => r matches Err(error) && error.message@ == "invalid version "@ + current@,
            Some(version) => r matches Ok(text) && text@ == bumped(version, bump).text(),
        },
{
    match checked_bump(current, bump) {
        Ok(Some(text)) => Ok(text),
        Ok(None) => Ok(String::new()),
        Err(error) => Err(error),
    }
}

// Numbers in tags.

/// What stands before the first hyphen.
pub open spec fn head(text: Seq<char>) -> Seq<char> {
    match cut_at(text, '-') {
        Some(parts) => parts.0,
        None => text,
    }
}

fn head_of(text: String) -> (r: String)
    ensures
        r@ == head(text@),
{
    match split_once(text.as_str(), '-') {
        Some(parts) => parts.0,
        None => text,
    }
}

/// The number that a tag has behind a prefix; a hyphen and what follows it may come after it
/// where `hyphen` says so.
pub open spec fn number_in(tag: Seq<char>, prefix: Seq<char>, hyphen: bool) -> Option<u32> {
    match without_prefix(tag, prefix) {
        None => None,
        Some(rest) => read_u32(
            if hyphen {
                head(rest)
            } else {
                rest
            },
        ),
    }
}

/// The highest number that any of the tags has behind a prefix; zero where none has.
pub open spec fn highest(tags: Seq<Seq<char>>, prefix: Seq<char>, hyphen: bool) -> nat
    decreases tags.len(),
{
    if tags.len() == 0 {
        0
    } else {
        let others = highest(tags.drop_last(), prefix, hyphen);
        match number_in(tags.last(), prefix, hyphen) {
            Some(number) if number > others => number as nat,
            _ => others,
        }
    }
}

fn highest_number(tags: &[String], prefix: &str, hyphen: bool) -> (r: u32)
    ensures
        r == highest(views(tags@), prefix@, hyphen),
{
    let mut most: u32 = 0;
    let n: usize = tags.len();
    for i in 0..n
        invariant
            n == tags@.len(),
            most == highest(views(tags@.take(i as int)), prefix@, hyphen),
    {
        proof {
            let now = views(tags@.take(i + 1));
            assert(now.drop_last() =~= views(tags@.take(i as int)));
            assert(now.last() == tags@[i as int]@);
        }
        if let Some(rest) = strip_prefix(tags[i].as_str(), prefix) {
            let digits = if hyphen {
                head_of(rest)
            } else {
                rest
            };
            if let Some(number) = parse_u32(digits.as_str()) {
                if number > most {
                    most = number;
                }
            }
        }
    }
    assert(tags@.take(n as int) =~= tags@);
    most
}

proof fn lemma_highest(tags: Seq<Seq<char>>, prefix: Seq<char>, hyphen: bool, i: int)
    requires
        0 <= i < tags.len(),
    ensures
        number_in(tags[i], prefix, hyphen) matches Some(number) ==> number <= highest(
            tags,
            prefix,
            hyphen,
        ),
    decreases tags.len(),
{
    if i < tags.len() - 1 {
        lemma_highest(tags.drop_last(), prefix, hyphen, i);
    }
}

/// Whether a number is above zero and above all numbers that the tags have behind a prefix.
pub open spec fn is_above(
    number: nat,
    tags: Seq<Seq<char>>,
    prefix: Seq<char>,
    hyphen: bool,
) -> bool {
    &&& number > 0
    &&& forall|i: int|
        0 <= i < tags.len() ==> (number_in(#[trigger] tags[i], prefix, hyphen) matches Some(used)
            ==> used < number)
}

/// The next number is the least that is above all that are used.
pub proof fn law_next_number_is_least(
    tags: Seq<Seq<char>>,
    prefix: Seq<char>,
    hyphen: bool,
    number: nat,
)
    ensures
        is_above(highest(tags, prefix, hyphen) + 1, tags, prefix, hyphen),
        is_above(number, tags, prefix, hyphen) ==> highest(tags, prefix, hyphen) + 1 <= number,
    decreases tags.len(),
{
    assert forall|i: int| 0 <= i < tags.len() implies (number_in(
        #[trigger] tags[i],
        prefix,
        hyphen,
    ) matches Some(used) ==> used < highest(tags, prefix, hyphen) + 1) by {
        lemma_highest(tags, prefix, hyphen, i);
    }
    if tags.len() > 0 && is_above(number, tags, prefix, hyphen) {
        let others = tags.drop_last();
        assert forall|i: int| 0 <= i < others.len() implies (number_in(
            #[trigger] others[i],
            prefix,
            hyphen,
        ) matches Some(used) ==> used < number) by {
            assert(others[i] == tags[i]);
        }
        law_next_number_is_least(others, prefix, hyphen, number);
        assert(tags.last() == tags[tags.len() - 1]);
    }
}

/// What the tag of a pre-release of a package begins with.
pub open spec fn prerelease_prefix(
    package: Seq<char>,
    version: Seq<char>,
    channel: Seq<char>,
) -> Seq<char> {
    package + "-v"@ + version + "-"@ + channel + "."@
}

fn prerelease_start(package: &str, version: &str, channel: &str) -> (r: String)
    ensures
        r@ == prerelease_prefix(package@, version@, channel@),
{
    let mut out = package.to_string();
    out.append("-v");
    out.append(version);
    out.append("-");
    out.append(channel);
    out.append(".");
    out
}

/// The number of the next pre-release, or nothing where there is no higher one.
pub fn checked_prerelease_number(
    tags: &[String],
    package: &str,
    version: &str,
    channel: &str,
) -> (r: Option<u32>)
    ensures
        ({
            let used = highest(
                views(tags@),
                prerelease_prefix(package@, version@, channel@),
                false,
            );
            match r {
                Some(number) => number == used + 1,
                None => used == u32::MAX,
            }
        }),
{
    let used: u32 = highest_number(
        tags,
        prerelease_start(package, version, channel).as_str(),
        false,
    );
    if used == u32::MAX {
        None
    } else {
        Some(used + 1)
    }
}

/// The number of the next pre-release of a version of a package.
pub fn next_prerelease_number(
    tags: &[String],
    package: &str,
    version: &str,
    channel: &str,
) -> (r: u32)
    requires
        highest(views(tags@), prerelease_prefix(package@, version@, channel@), false) < u32::MAX,
    ensures
        r == highest(views(tags@), prerelease_prefix(package@, version@, channel@), false) + 1,
{
    let used: u32 = highest_number(
        tags,
        prerelease_start(package, version, channel).as_str(),
        false,
    );
    used + 1
}

/// The number behind a prefix is read back.
pub proof fn lemma_number_behind(prefix: Seq<char>, number: u32)
    ensures
        number_in(prefix + decimal(number as nat), prefix, false) == Some(number),
{
    let tag = prefix + decimal(number as nat);
    lemma_read_decimal(number);
    assert(tag.take(prefix.len() as int) =~= prefix);
    assert(tag.skip(prefix.len() as int) =~= decimal(number as nat));
    assert(without_prefix(tag, prefix) == Some(decimal(number as nat)));
}

/// Once a pre-release has its tag, the one after it has the number after its.
pub proof fn law_prereleases_count_up(
    tags: Seq<Seq<char>>,
    package: Seq<char>,
    version: Seq<char>,
    channel: Seq<char>,
)
    requires
        highest(tags, prerelease_prefix(package, version, channel), false) < u32::MAX,
    ensures
        ({
            let prefix = prerelease_prefix(package, version, channel);
            let next = highest(tags, prefix, false) + 1;
            highest(tags.push(prefix + decimal(next)), prefix, false) == next
        }),
{
    let prefix = prerelease_prefix(package, version, channel);
    let next = highest(tags, prefix, false) + 1;
    lemma_number_behind(prefix, next as u32);
    assert(tags.push(prefix + decimal(next)).drop_last() =~= tags);
}

/// The tag of the next pre-release is none of the tags.
pub proof fn law_next_prerelease_is_new(
    tags: Seq<Seq<char>>,
    package: Seq<char>,
    version: Seq<char>,
    channel: Seq<char>,
)
    requires
        highest(tags, prerelease_prefix(package, version, channel), false) < u32::MAX,
    ensures
        ({
            let prefix = prerelease_prefix(package, version, channel);
            !tags.contains(prefix + decimal(highest(tags, prefix, false) + 1))
        }),
{
    let prefix = prerelease_prefix(package, version, channel);
    let number = (highest(tags, prefix, false) + 1) as u32;
    let tag = prefix + decimal(number as nat);
    if tags.contains(tag) {
        let i = choose|i: int| 0 <= i < tags.len() && tags[i] == tag;
        lemma_highest(tags, prefix, false, i);
        lemma_number_behind(prefix, number);
    }
}

/// What the release tags of a day begin with.
pub open spec fn day_prefix(today: Seq<char>) -> Seq<char> {
    "release-v"@ + today + "."@
}

/// The tag of the next release of a day, without its channel.
pub open spec fn release_base(tags: Seq<Seq<char>>, today: Seq<char>) -> Seq<char> {
    day_prefix(today) + decimal(highest(tags, day_prefix(today), true) + 1)
}

/// The tag of the next release of a day, or nothing where there is no higher number.
pub fn checked_release_base(tags: &[String], today: &str) -> (r: Option<String>)
    ensures
        match r {
            Some(text) => text@ == release_base(views(tags@), today@) && highest(
                views(tags@),
                day_prefix(today@),
                true,
            ) < u32::MAX,
            None => highest(views(tags@), day_prefix(today@), true) == u32::MAX,
        },
{
    let prefix = glue3("release-v", today, ".");
    let used: u32 = highest_number(tags, prefix.as_str(), true);
    if used == u32::MAX {
        return None;
    }
    Some(glue(prefix.as_str(), to_decimal(used as u64 + 1).as_str()))
}

/// The tag of the next release of a day, without its channel.
pub fn next_release_base(tags: &[String], today: &str) -> (r: String)
    requires
        highest(views(tags@), day_prefix(today@), true) < u32::MAX,
    ensures
        r@ == release_base(views(tags@), today@),
{
    let prefix = glue3("release-v", today, ".");
    let used: u32 = highest_number(tags, prefix.as_str(), true);
    glue(prefix.as_str(), to_decimal(used as u64 + 1).as_str())
}

/// The tag of a release.
pub open spec fn tag_in(base: Seq<char>, channel: Channel, number: nat) -> Seq<char> {
    if channel == Channel::Stable {
        base
    } else {
        base + "-"@ + channel.name() + "."@ + decimal(number)
    }
}

/// The tag of a release.
pub fn release_tag(base: &str, channel: Channel, number: u32) -> (r: String)
    ensures
        r@ == tag_in(base@, channel, number as nat),
{
    match channel {
        Channel::Stable => base.to_string(),
        Channel::Rc | Channel::Beta | Channel::Alpha => {
            let mut out = base.to_string();
            out.append("-");
            out.append(channel.as_str());
            out.append(".");
            out.append(to_decimal(number as u64).as_str());
            out
        },
    }
}

proof fn lemma_head_of_number(number: nat, rest: Seq<char>)
    requires
        rest.len() == 0 || rest[0] == '-',
    ensures
        head(decimal(number) + rest) == decimal(number),
{
    lemma_decimal(number);
    let digits = decimal(number);
    let all = digits + rest;
    assert forall|i: int| 0 <= i < digits.len() implies !#[trigger] only('-')(all[i]) by {
        assert(is_digit(digits[i]));
    }
    lemma_run_len_is(all, only('-'), digits.len() as int);
    assert(all.take(digits.len() as int) =~= digits);
    assert(rest.len() == 0 ==> all =~= digits);
}

proof fn lemma_number_of_release(
    tags: Seq<Seq<char>>,
    today: Seq<char>,
    channel: Channel,
    number: nat,
)
    requires
        highest(tags, day_prefix(today), true) < u32::MAX,
    ensures
        number_in(
            tag_in(release_base(tags, today), channel, number),
            day_prefix(today),
            true,
        ) == Some((highest(tags, day_prefix(today), true) + 1) as u32),
{
    reveal_strlit("-");
    let prefix = day_prefix(today);
    let next = (highest(tags, prefix, true) + 1) as u32;
    let tag = tag_in(release_base(tags, today), channel, number);
    lemma_read_decimal(next);
    let rest = tag.skip(prefix.len() as int);
    let after = if channel == Channel::Stable {
        seq![]
    } else {
        "-"@ + channel.name() + "."@ + decimal(number)
    };
    assert(tag.take(prefix.len() as int) =~= prefix);
    assert(rest =~= decimal(next as nat) + after);
    lemma_head_of_number(next as nat, after);
    assert(without_prefix(tag, prefix) == Some(rest));
}

/// Once a release has its tag, on any channel, the next of the day has the number after its.
pub proof fn law_releases_count_up(
    tags: Seq<Seq<char>>,
    today: Seq<char>,
    channel: Channel,
    number: nat,
)
    requires
        highest(tags, day_prefix(today), true) < u32::MAX,
    ensures
        ({
            let prefix = day_prefix(today);
            let next = highest(tags, prefix, true) + 1;
            let after = tags.push(tag_in(release_base(tags, today), channel, number));
            &&& highest(after, prefix, true) == next
            &&& release_base(after, today) == prefix + decimal(next + 1)
        }),
{
    let after = tags.push(tag_in(release_base(tags, today), channel, number));
    lemma_number_of_release(tags, today, channel, number);
    assert(after.drop_last() =~= tags);
}

/// The tag of the next release is none of the tags, on any channel.
pub proof fn law_next_release_is_new(
    tags: Seq<Seq<char>>,
    today: Seq<char>,
    channel: Channel,
    number: nat,
)
    requires
        highest(tags, day_prefix(today), true) < u32::MAX,
    ensures
        !tags.contains(tag_in(release_base(tags, today), channel, number)),
{
    let tag = tag_in(release_base(tags, today), channel, number);
    if tags.contains(tag) {
        let i = choose|i: int| 0 <= i < tags.len() && tags[i] == tag;
        lemma_highest(tags, day_prefix(today), true, i);
        lemma_number_of_release(tags, today, channel, number);
    }
}

// The tag before another.

/// The day of a release and its number on that day.
#[derive(Debug, Clone, Copy, PartialEq, Eq, Structural)]
pub struct ReleaseKey {
    pub year: u32,
    pub month: u32,
    pub day: u32,
    pub seq: u32,
}

impl ReleaseKey {
    /// Whether a release comes before another.
    pub open spec fn before(self, other: ReleaseKey) -> bool {
        if self.year != other.year {
            self.year < other.year
        } else if self.month != other.month {
            self.month < other.month
        } else if self.day != other.day {
            self.day < other.day
        } else {
            self.seq < other.seq
        }
    }

    /// Whether a release comes before another.
    pub fn is_before(self, other: ReleaseKey) -> (r: bool)
        ensures
            r == self.before(other),
    {
        if self.year != other.year {
            self.year < other.year
        } else if self.month != other.month {
            self.month < other.month
        } else if self.day != other.day {
            self.day < other.day
        } else {
            self.seq < other.seq
        }
    }
}

/// How a number is read.
pub open spec fn reads() -> spec_fn(Seq<char>) -> Option<u32> {
    |part: Seq<char>| read_u32(part)
}

/// The number at a place, or zero.
pub open spec fn at_or_zero(numbers: Seq<u32>, i: int) -> u32 {
    if i < numbers.len() {
        numbers[i]
    } else {
        0
    }
}

/// The numbers of a release tag: those between the dots up to the first hyphen; what is no
/// number there does not count.
pub open spec fn numbers_of(tag: Seq<char>) -> Seq<u32> {
    split_on(head(without_prefixes(tag, "release-v"@)), '.').filter_map(reads())
}

/// The day and the number of a release tag.
pub open spec fn key_of(tag: Seq<char>) -> ReleaseKey {
    let numbers = numbers_of(tag);
    ReleaseKey {
        year: at_or_zero(numbers, 0),
        month: at_or_zero(numbers, 1),
        day: at_or_zero(numbers, 2),
        seq: at_or_zero(numbers, 3),
    }
}

fn read_numbers(parts: &[String]) -> (r: Vec<u32>)
    ensures
        r@ == views(parts@).filter_map(reads()),
{
    let mut out: Vec<u32> = Vec::new();
    let n: usize = parts.len();
    let ghost all = views(parts@);
    assert(all.take(0).filter_map(reads()) =~= seq![]) by {
        reveal(Seq::filter_map);
    }
    for i in 0..n
        invariant
            n == parts@.len(),
            all == views(parts@),
            out@ == all.take(i as int).filter_map(reads()),
    {
        proof {
            all.lemma_filter_map_take_succ(reads(), i as int);
            assert(all[i as int] == parts@[i as int]@);
        }
        if let Some(number) = parse_u32(parts[i].as_str()) {
            out.push(number);
        }
    }
    assert(all.take(n as int) =~= all);
    out
}

fn number_at(numbers: &[u32], i: usize) -> (r: u32)
    ensures
        r == at_or_zero(numbers@, i as int),
{
    if i < numbers.len() {
        numbers[i]
    } else {
        0
    }
}

/// The day and the number of a release tag.
pub fn release_key(tag: &str) -> (r: ReleaseKey)
    ensures
        r == key_of(tag@),
{
    let rest = strip_prefixes(tag, "release-v");
    let parts = split(head_of(rest).as_str(), '.');
    let numbers = read_numbers(parts.as_slice());
    ReleaseKey {
        year: number_at(numbers.as_slice(), 0),
        month: number_at(numbers.as_slice(), 1),
        day: number_at(numbers.as_slice(), 2),
        seq: number_at(numbers.as_slice(), 3),
    }
}

/// A tag of another release.
pub open spec fn other_release(tag: Seq<char>, current: Seq<char>) -> bool {
    has_prefix(tag, "release-v"@) && tag != current
}

/// A release tag that none of the others comes after; of several on the same day with the same
/// number it is the last in the list.
pub open spec fn is_latest_release(tags: Seq<Seq<char>>, current: Seq<char>, i: int) -> bool {
    &&& 0 <= i < tags.len()
    &&& other_release(tags[i], current)
    &&& forall|j: int|
        0 <= j < tags.len() && other_release(#[trigger] tags[j], current) ==> {
            &&& !key_of(tags[i]).before(key_of(tags[j]))
            &&& j > i ==> key_of(tags[j]).before(key_of(tags[i]))
        }
}

/// The version that a tag is of.
pub open spec fn version_in(tag: Seq<char>) -> Option<VersionView> {
    parsed(without_prefixes(tag, "v"@))
}

/// A tag of another version.
pub open spec fn other_version(tag: Seq<char>, current: Seq<char>) -> bool {
    has_prefix(tag, "v"@) && !has_prefix(tag, "release-v"@) && tag != current && version_in(
        tag,
    ) is Some
}

/// A version tag that none of the others comes after; of several of the same version it is the
/// last in the list.
pub open spec fn is_latest_version(tags: Seq<Seq<char>>, current: Seq<char>, i: int) -> bool {
    &&& 0 <= i < tags.len()
    &&& other_version(tags[i], current)
    &&& forall|j: int|
        0 <= j < tags.len() && other_version(#[trigger] tags[j], current) ==> {
            &&& !version_in(tags[i])->0.older(version_in(tags[j])->0)
            &&& j > i ==> version_in(tags[j])->0.older(version_in(tags[i])->0)
        }
}

/// Whether any of the tags is one of another release.
pub open spec fn has_release(tags: Seq<Seq<char>>, current: Seq<char>) -> bool {
    exists|i: int| 0 <= i < tags.len() && other_release(#[trigger] tags[i], current)
}

/// Whether any of the tags is one of another version.
pub open spec fn has_version(tags: Seq<Seq<char>>, current: Seq<char>) -> bool {
    exists|i: int| 0 <= i < tags.len() && other_version(#[trigger] tags[i], current)
}

/// The tag that the changes of `current` are counted from: the latest of the other releases
/// or, where there is none, of the other versions.
pub open spec fn is_previous(
    tags: Seq<Seq<char>>,
    current: Seq<char>,
    tag: Option<Seq<char>>,
) -> bool {
    match tag {
        None => !has_release(tags, current) && !has_version(tags, current),
        Some(tag) => if has_release(tags, current) {
            exists|i: int| #[trigger] is_latest_release(tags, current, i) && tag == tags[i]
        } else {
            exists|i: int| #[trigger] is_latest_version(tags, current, i) && tag == tags[i]
        },
    }
}

fn latest_release(tags: &[String], current: &str) -> (r: Option<usize>)
    ensures
        match r {
            Some(i) => is_latest_release(views(tags@), current@, i as int),
            None => !has_release(views(tags@), current@),
        },
{
    let n: usize = tags.len();
    let ghost all = views(tags@);
    let mut best: Option<usize> = None;
    for i in 0..n
        invariant
            n == tags@.len(),
            all == views(tags@),
            match best {
                None => forall|j: int|
                    0 <= j < i ==> !other_release(#[trigger] all[j], current@),
                Some(b) => {
                    &&& b < i
                    &&& other_release(all[b as int], current@)
                    &&& forall|j: int|
                        0 <= j < i && other_release(#[trigger] all[j], current@) ==> {
                            &&& !key_of(all[b as int]).before(key_of(all[j]))
                            &&& j > b ==> key_of(all[j]).before(key_of(all[b as int]))
                        }
                },
            },
    {
        let tag = tags[i].as_str();
        assert(all[i as int] == tag@);
        if starts_with(tag, "release-v") && !same(tag, current) {
            let replaces = match best {
                None => true,
                Some(b) => !release_key(tag).is_before(release_key(tags[b].as_str())),
            };
            if replaces {
                best = Some(i);
            }
        }
    }
    best
}

fn latest_version(tags: &[String], current: &str) -> (r: Option<usize>)
    ensures
        match r {
            Some(i) => is_latest_version(views(tags@), current@, i as int),
            None => !has_version(views(tags@), current@),
        },
{
    let n: usize = tags.len();
    let ghost all = views(tags@);
    let mut best: Option<(usize, Version)> = None;
    for i in 0..n
        invariant
            n == tags@.len(),
            all == views(tags@),
            match best {
                None => forall|j: int|
                    0 <= j < i ==> !other_version(#[trigger] all[j], current@),
                Some((b, v)) => {
                    &&& b < i
                    &&& other_version(all[b as int], current@)
                    &&& version_in(all[b as int]) == Some(v@)
                    &&& v@.valid()
                    &&& forall|j: int|
                        0 <= j < i && other_version(#[trigger] all[j], current@) ==> {
                            &&& !v@.older(version_in(all[j])->0)
                            &&& j > b ==> version_in(all[j])->0.older(v@)
                        }
                },
            },
    {
        let tag = tags[i].as_str();
        assert(all[i as int] == tag@);
        if starts_with(tag, "v") && !starts_with(tag, "release-v") && !same(tag, current) {
            if let Ok(version) = Version::parse(strip_prefixes(tag, "v").as_str()) {
                let replaces = match &best {
                    None => true,
                    Some((_, v)) => !version.is_older(v),
                };
                proof {
                    law_versions_are_totally_ordered(version@, version@);
                    if let Some((_, ref v)) = best {
                        law_versions_are_totally_ordered(version@, v@);
                        assert forall|j: int|
                            0 <= j < i && other_version(#[trigger] all[j], current@) && replaces
                                implies !version@.older(version_in(all[j])->0) by {
                            let w = version_in(all[j])->0;
                            law_versions_are_totally_ordered(w, v@);
                            if version@.older(w) && w.older(v@) {
                                law_version_order_is_transitive(version@, w, v@);
                            }
                        }
                    }
                }
                if replaces {
                    best = Some((i, version));
                }
            }
        }
    }
    match best {
        None => None,
        Some((b, _)) => Some(b),
    }
}

/// The tag that the changes of `current` are counted from.
pub fn previous_tag(tags: &[String], current: &str) -> (r: Option<String>)
    ensures
        is_previous(views(tags@), current@, view_opt(r)),
{
    if let Some(i) = latest_release(tags, current) {
        assert(views(tags@)[i as int] == tags@[i as int]@);
        return Some(tags[i].clone());
    }
    match latest_version(tags, current) {
        Some(i) => {
            assert(views(tags@)[i as int] == tags@[i as int]@);
            Some(tags[i].clone())
        },
        None => None,
    }
}

/// The list holds no more than one tag that can be the previous one.
pub proof fn law_previous_tag_is_unique(
    tags: Seq<Seq<char>>,
    current: Seq<char>,
    a: Option<Seq<char>>,
    b: Option<Seq<char>>,
)
    requires
        is_previous(tags, current, a),
        is_previous(tags, current, b),
    ensures
        a == b,
{
    if has_release(tags, current) {
        let i = choose|i: int| #[trigger] is_latest_release(tags, current, i) && a->0 == tags[i];
        let j = choose|j: int| #[trigger] is_latest_release(tags, current, j) && b->0 == tags[j];
        assert(i == j);
    } else if has_version(tags, current) {
        let i = choose|i: int| #[trigger] is_latest_version(tags, current, i) && a->0 == tags[i];
        let j = choose|j: int| #[trigger] is_latest_version(tags, current, j) && b->0 == tags[j];
        assert(i == j);
    }
}

/// The previous tag is one of the tags, and another one than the current.
pub proof fn law_previous_tag_is_another(
    tags: Seq<Seq<char>>,
    current: Seq<char>,
    tag: Seq<char>,
)
    requires
        is_previous(tags, current, Some(tag)),
    ensures
        tags.contains(tag),
        tag != current,
{
}

// Release tags by their dates.

/// Whether a text is that of a number in decimal; zeros may lead.
pub open spec fn is_numeral(text: Seq<char>, number: nat) -> bool {
    all_digits(text) && value(text) == number
}

/// Whether a tag is that of the release with a number on a day, on any channel.
pub open spec fn is_dated(
    tag: Seq<char>,
    year: nat,
    month: nat,
    day: nat,
    number: nat,
) -> bool {
    exists|y: Seq<char>, m: Seq<char>, d: Seq<char>, n: Seq<char>, rest: Seq<char>|
        is_numeral(y, year) && is_numeral(m, month) && is_numeral(d, day) && is_numeral(n, number)
            && (rest.len() == 0 || rest[0] == '-') && tag == #[trigger] ("release-v"@ + y + "."@ + m
            + "."@ + d + "."@ + n + rest)
}

proof fn lemma_no_mark(text: Seq<char>, i: int)
    requires
        all_digits(text),
        0 <= i < text.len(),
    ensures
        text[i] != '.',
        text[i] != '-',
        text[i] != '+',
        text[i] != 'r',
{
    assert(is_digit(text[i]));
}

proof fn lemma_split_front(part: Seq<char>, rest: Seq<char>)
    requires
        all_digits(part),
    ensures
        split_on(part, '.') == seq![part],
        split_on(part + "."@ + rest, '.') == seq![part] + split_on(rest, '.'),
{
    reveal_strlit(".");
    let n = part.len() as int;
    let all = part + "."@ + rest;
    assert forall|i: int| 0 <= i < n implies !#[trigger] only('.')(part[i]) by {
        lemma_no_mark(part, i);
    }
    lemma_run_len_is(part, only('.'), n);
    assert forall|i: int| 0 <= i < n implies !#[trigger] only('.')(all[i]) by {
        assert(all[i] == part[i]);
        lemma_no_mark(part, i);
    }
    assert(all[n] == '.');
    lemma_run_len_is(all, only('.'), n);
    assert(all.take(n) =~= part);
    assert(all.skip(n + 1) =~= rest);
}

proof fn lemma_reads(text: Seq<char>, number: nat)
    requires
        is_numeral(text, number),
        number <= u32::MAX,
    ensures
        read_u32(text) == Some(number as u32),
{
    lemma_no_mark(text, 0);
    assert(text.take(1)[0] == text[0]);
    assert(seq!['+'][0] == '+');
}

proof fn lemma_front_has_no_hyphen(part: Seq<char>, rest: Seq<char>)
    requires
        all_digits(part),
        forall|i: int| 0 <= i < rest.len() ==> #[trigger] rest[i] != '-',
    ensures
        forall|i: int|
            0 <= i < (part + "."@ + rest).len() ==> #[trigger] (part + "."@ + rest)[i] != '-',
{
    reveal_strlit(".");
    let all = part + "."@ + rest;
    assert forall|i: int| 0 <= i < all.len() implies #[trigger] all[i] != '-' by {
        if i < part.len() {
            lemma_no_mark(part, i);
            assert(all[i] == part[i]);
        } else if i > part.len() {
            assert(all[i] == rest[i - part.len() - 1]);
        }
    }
}

proof fn lemma_head_is_date(
    y: Seq<char>,
    m: Seq<char>,
    d: Seq<char>,
    n: Seq<char>,
    rest: Seq<char>,
)
    requires
        all_digits(y),
        all_digits(m),
        all_digits(d),
        all_digits(n),
        rest.len() == 0 || rest[0] == '-',
    ensures
        head(y + "."@ + (m + "."@ + (d + "."@ + n)) + rest) == y + "."@ + (m + "."@ + (d + "."@
            + n)),
{
    let date = y + "."@ + (m + "."@ + (d + "."@ + n));
    let all = date + rest;
    assert forall|i: int| 0 <= i < n.len() implies #[trigger] n[i] != '-' by {
        lemma_no_mark(n, i);
    }
    lemma_front_has_no_hyphen(d, n);
    lemma_front_has_no_hyphen(m, d + "."@ + n);
    lemma_front_has_no_hyphen(y, m + "."@ + (d + "."@ + n));
    let len = date.len() as int;
    assert forall|i: int| 0 <= i < len implies !#[trigger] only('-')(all[i]) by {
        assert(all[i] == date[i]);
    }
    lemma_run_len_is(all, only('-'), len);
    assert(all.take(len) =~= date);
    assert(rest.len() == 0 ==> all =~= date);
}

proof fn lemma_numbers_of_date(
    y: Seq<char>,
    m: Seq<char>,
    d: Seq<char>,
    n: Seq<char>,
    year: nat,
    month: nat,
    day: nat,
    number: nat,
)
    requires
        is_numeral(y, year),
        is_numeral(m, month),
        is_numeral(d, day),
        is_numeral(n, number),
        year <= u32::MAX,
        month <= u32::MAX,
        day <= u32::MAX,
        number <= u32::MAX,
    ensures
        split_on(y + "."@ + (m + "."@ + (d + "."@ + n)), '.').filter_map(reads()) == seq![
            year as u32,
            month as u32,
            day as u32,
            number as u32,
        ],
{
    lemma_split_front(y, m + "."@ + (d + "."@ + n));
    lemma_split_front(m, d + "."@ + n);
    lemma_split_front(d, n);
    lemma_split_front(n, seq![]);
    let parts = split_on(y + "."@ + (m + "."@ + (d + "."@ + n)), '.');
    assert(parts =~= seq![y, m, d, n]);
    lemma_reads(y, year);
    lemma_reads(m, month);
    lemma_reads(d, day);
    lemma_reads(n, number);
    parts.lemma_filter_map_take_succ(reads(), 0);
    parts.lemma_filter_map_take_succ(reads(), 1);
    parts.lemma_filter_map_take_succ(reads(), 2);
    parts.lemma_filter_map_take_succ(reads(), 3);
    assert(parts.take(0).filter_map(reads()) =~= seq![]) by {
        reveal(Seq::filter_map);
    }
    assert(parts.take(4) =~= parts);
    assert(parts.filter_map(reads()) =~= seq![
        year as u32,
        month as u32,
        day as u32,
        number as u32,
    ]);
}

proof fn lemma_dated_key(tag: Seq<char>, year: nat, month: nat, day: nat, number: nat)
    requires
        is_dated(tag, year, month, day, number),
        year <= u32::MAX,
        month <= u32::MAX,
        day <= u32::MAX,
        number <= u32::MAX,
    ensures
        has_prefix(tag, "release-v"@),
        key_of(tag) == (ReleaseKey {
            year: year as u32,
            month: month as u32,
            day: day as u32,
            seq: number as u32,
        }),
{
    reveal_strlit("release-v");
    let (y, m, d, n, rest) = choose|
        y: Seq<char>,
        m: Seq<char>,
        d: Seq<char>,
        n: Seq<char>,
        rest: Seq<char>,
    |
        is_numeral(y, year) && is_numeral(m, month) && is_numeral(d, day) && is_numeral(n, number)
            && (rest.len() == 0 || rest[0] == '-') && tag == #[trigger] ("release-v"@ + y + "."@ + m
            + "."@ + d + "."@ + n + rest);
    let date = y + "."@ + (m + "."@ + (d + "."@ + n));
    let all = date + rest;
    assert(tag.take(9) =~= "release-v"@);
    assert(tag.skip(9) =~= all);
    assert(!has_prefix(all, "release-v"@)) by {
        lemma_no_mark(y, 0);
        assert(all[0] == y[0]);
        assert("release-v"@[0] == 'r');
        if has_prefix(all, "release-v"@) {
            assert(all.take(9)[0] == all[0]);
        }
    }
    assert(without_prefixes(all, "release-v"@) == all);
    assert(without_prefixes(tag, "release-v"@) == all);
    lemma_head_is_date(y, m, d, n, rest);
    lemma_numbers_of_date(y, m, d, n, year, month, day, number);
}

/// The changes of a release are counted from the other release with the latest date: none has a
/// later year, none a later month of that year, none a later day of that month and none a higher
/// number on that day.
pub proof fn law_previous_release_has_the_latest_date(
    tags: &[String],
    current: &str,
    r: Option<String>,
    i: int,
    year: nat,
    month: nat,
    day: nat,
    number: nat,
    other_year: nat,
    other_month: nat,
    other_day: nat,
    other_number: nat,
)
    requires
        call_ensures(previous_tag, (tags, current), r),
        r is Some,
        is_dated(r->0@, year, month, day, number),
        year <= u32::MAX,
        month <= u32::MAX,
        day <= u32::MAX,
        number <= u32::MAX,
        0 <= i < tags@.len(),
        tags@[i]@ != current@,
        is_dated(tags@[i]@, other_year, other_month, other_day, other_number),
        other_year <= u32::MAX,
        other_month <= u32::MAX,
        other_day <= u32::MAX,
        other_number <= u32::MAX,
    ensures
        other_year <= year,
        other_year == year ==> other_month <= month,
        other_year == year && other_month == month ==> other_day <= day,
        other_year == year && other_month == month && other_day == day ==> other_number <= number,
{
    let all = views(tags@);
    assert(all[i] == tags@[i]@);
    lemma_dated_key(r->0@, year, month, day, number);
    lemma_dated_key(all[i], other_year, other_month, other_day, other_number);
    assert(other_release(all[i], current@));
    assert(has_release(all, current@));
    let k = choose|k: int| #[trigger] is_latest_release(all, current@, k) && r->0@ == all[k];
}

/// Where there is another release tag the changes are counted from a release tag that is one of
/// the others; where there is none but a version tag, from a version tag.
pub proof fn law_releases_come_before_versions(tags: &[String], current: &str, r: Option<String>)
    requires
        call_ensures(previous_tag, (tags, current), r),
    ensures
        r matches Some(tag) ==> {
            &&& tag@ != current@
            &&& exists|i: int| 0 <= i < tags@.len() && #[trigger] tags@[i]@ == tag@
            &&& tag@.len() > 0
            &&& tag@[0] == 'r' || tag@[0] == 'v'
        },
        (exists|i: int|
            0 <= i < tags@.len() && #[trigger] tags@[i]@ != current@ && has_prefix(
                tags@[i]@,
                "release-v"@,
            )) ==> r is Some && has_prefix(r->0@, "release-v"@),
{
    reveal_strlit("release-v");
    reveal_strlit("v");
    assert("release-v"@[0] == 'r');
    assert("v"@[0] == 'v');
    let all = views(tags@);
    assert forall|i: int| 0 <= i < all.len() implies #[trigger] all[i] == tags@[i]@ by {}
    if let Some(tag) = r {
        let t = tag@;
        if has_release(all, current@) {
            let k = choose|k: int| #[trigger] is_latest_release(all, current@, k) && t == all[k];
            assert(tags@[k]@ == t);
            assert(t.take(9)[0] == t[0]);
        } else {
            let k = choose|k: int| #[trigger] is_latest_version(all, current@, k) && t == all[k];
            assert(tags@[k]@ == t);
            assert(t.take(1)[0] == t[0]);
        }
    }
    if exists|i: int|
        0 <= i < tags@.len() && #[trigger] tags@[i]@ != current@ && has_prefix(
            tags@[i]@,
            "release-v"@,
        ) {
        let i = choose|i: int|
            0 <= i < tags@.len() && #[trigger] tags@[i]@ != current@ && has_prefix(
                tags@[i]@,
                "release-v"@,
            );
        assert(other_release(all[i], current@));
    }
}

// Channels by their names.

/// A release tag ends with the name of its channel and its number; a stable one has neither.
pub proof fn law_release_tags_name_their_channel(
    base: &str,
    channel: Channel,
    number: u32,
    r: String,
)
    requires
        call_ensures(release_tag, (base, channel, number), r),
    ensures
        channel == Channel::Stable ==> r@ == base@,
        channel == Channel::Rc ==> r@ == base@ + "-rc."@ + decimal(number as nat),
        channel == Channel::Beta ==> r@ == base@ + "-beta."@ + decimal(number as nat),
        channel == Channel::Alpha ==> r@ == base@ + "-alpha."@ + decimal(number as nat),
{
    reveal_strlit("-");
    reveal_strlit(".");
    reveal_strlit("rc");
    reveal_strlit("beta");
    reveal_strlit("alpha");
    reveal_strlit("-rc.");
    reveal_strlit("-beta.");
    reveal_strlit("-alpha.");
    assert("-"@ + "rc"@ + "."@ =~= "-rc."@);
    assert("-"@ + "beta"@ + "."@ =~= "-beta."@);
    assert("-"@ + "alpha"@ + "."@ =~= "-alpha."@);
    let n = decimal(number as nat);
    assert(base@ + "-"@ + "rc"@ + "."@ + n =~= base@ + ("-"@ + "rc"@ + "."@) + n);
    assert(base@ + "-"@ + "beta"@ + "."@ + n =~= base@ + ("-"@ + "beta"@ + "."@) + n);
    assert(base@ + "-"@ + "alpha"@ + "."@ + n =~= base@ + ("-"@ + "alpha"@ + "."@) + n);
}

/// Release tags with the same base and number on two channels differ.
pub proof fn law_channels_have_tags_of_their_own(
    base: &str,
    number: u32,
    a: Channel,
    b: Channel,
    tag_a: String,
    tag_b: String,
)
    requires
        call_ensures(release_tag, (base, a, number), tag_a),
        call_ensures(release_tag, (base, b, number), tag_b),
        a != b,
    ensures
        tag_a@ != tag_b@,
{
    law_release_tags_name_their_channel(base, a, number, tag_a);
    law_release_tags_name_their_channel(base, b, number, tag_b);
    reveal_strlit("-rc.");
    reveal_strlit("-beta.");
    reveal_strlit("-alpha.");
    assert("-rc."@.len() == 4 && "-beta."@.len() == 6 && "-alpha."@.len() == 7);
    let n = decimal(number as nat);
    assert((base@ + "-rc."@ + n).len() == base@.len() + 4 + n.len());
    assert((base@ + "-beta."@ + n).len() == base@.len() + 6 + n.len());
    assert((base@ + "-alpha."@ + n).len() == base@.len() + 7 + n.len());
}

/// The next pre-release number depends on the tags of the same package, version and channel
/// alone, which are those that have the name, `-v`, the version, a hyphen, the channel and a dot
/// before the number; it is one more than the highest of them.
pub proof fn law_prereleases_are_counted_by_their_tags(
    tags: &[String],
    package: &str,
    version: &str,
    channel: &str,
    r: Option<u32>,
    i: int,
    used: u32,
)
    requires
        call_ensures(checked_prerelease_number, (tags, package, version, channel), r),
        0 <= i < tags@.len(),
        tags@[i]@ == package@ + "-v"@ + version@ + "-"@ + channel@ + "."@ + decimal(used as nat),
    ensures
        r matches Some(number) ==> number > used,
        used == u32::MAX ==> r is None,
{
    let prefix = package@ + "-v"@ + version@ + "-"@ + channel@ + "."@;
    lemma_number_behind(prefix, used);
    lemma_highest(views(tags@), prefix, false, i);
    assert(views(tags@)[i] == tags@[i]@);
}

/// Without a tag of its package, version and channel, the first pre-release has the number one;
/// and the first release of a day ends with the number one.
pub proof fn law_numbers_start_at_one(
    package: &str,
    version: &str,
    channel: &str,
    today: &str,
    tags: &[String],
    number: Option<u32>,
    base: Option<String>,
)
    requires
        tags@.len() == 0,
        call_ensures(checked_prerelease_number, (tags, package, version, channel), number),
        call_ensures(checked_release_base, (tags, today), base),
    ensures
        number == Some(1u32),
        base matches Some(text) && text@ == "release-v"@ + today@ + ".1"@,
{
    reveal_strlit(".");
    reveal_strlit(".1");
    assert(views(tags@) =~= seq![]);
    assert(decimal(1) =~= seq!['1']);
    assert(day_prefix(today@) + seq!['1'] =~= "release-v"@ + today@ + ".1"@);
}

/// The release of a day comes after every release of that day, whatever their channels.
pub proof fn law_releases_are_counted_by_their_day(
    tags: &[String],
    today: &str,
    r: Option<String>,
    i: int,
    used: u32,
    rest: Seq<char>,
)
    requires
        call_ensures(checked_release_base, (tags, today), r),
        0 <= i < tags@.len(),
        rest.len() == 0 || rest[0] == '-',
        tags@[i]@ == "release-v"@ + today@ + "."@ + decimal(used as nat) + rest,
    ensures
        used == u32::MAX ==> r is None,
        r matches Some(text) ==> exists|number: u32|
            number > used && text@ == "release-v"@ + today@ + "."@ + #[trigger] decimal(
                number as nat,
            ),
{
    let prefix = "release-v"@ + today@ + "."@;
    let tag = tags@[i]@;
    let all = views(tags@);
    assert(all[i] == tag);
    let behind = decimal(used as nat) + rest;
    assert(tag.take(prefix.len() as int) =~= prefix);
    assert(tag.skip(prefix.len() as int) =~= behind);
    assert(without_prefix(tag, prefix) == Some(behind));
    lemma_head_of_number(used as nat, rest);
    lemma_read_decimal(used);
    lemma_highest(all, prefix, true, i);
    if let Some(text) = r {
        let number = (highest(all, prefix, true) + 1) as u32;
        assert(text@ == prefix + decimal(number as nat));
    }
}

// Bumps by their numbers.

/// A bump raises one number by one, starts those behind it at zero, keeps those before it, and
/// drops the pre-release and the build.
pub proof fn law_bumps_by_number(
    current: &str,
    bump: Bump,
    r: Result<Option<String>, VersionError>,
    version: VersionView,
    new: String,
)
    requires
        call_ensures(checked_bump, (current, bump), r),
        parsed(current@) == Some(version),
        r == Ok::<Option<String>, VersionError>(Some(new)),
    ensures
        bump == Bump::Major ==> new@ == decimal((version.major + 1) as nat) + ".0.0"@,
        bump == Bump::Minor ==> new@ == decimal(version.major as nat) + "."@ + decimal(
            (version.minor + 1) as nat,
        ) + ".0"@,
        bump == Bump::Patch ==> new@ == decimal(version.major as nat) + "."@ + decimal(
            version.minor as nat,
        ) + "."@ + decimal((version.patch + 1) as nat),
        bump == Bump::Current ==> new@ == decimal(version.major as nat) + "."@ + decimal(
            version.minor as nat,
        ) + "."@ + decimal(version.patch as nat),
{
    reveal_strlit(".");
    reveal_strlit(".0");
    reveal_strlit(".0.0");
    assert(decimal(0) =~= seq!['0']);
    let next = bumped(version, bump);
    assert(new@ =~= decimal(next.major as nat) + "."@ + decimal(next.minor as nat) + "."@ + decimal(
        next.patch as nat,
    ));
    assert("."@ + decimal(0) =~= ".0"@);
    assert(".0"@ + ".0"@ =~= ".0.0"@);
    let a = decimal(next.major as nat);
    let b = decimal(next.minor as nat);
    assert(a + "."@ + decimal(0) + "."@ + decimal(0) =~= a + ".0.0"@);
    assert(a + "."@ + b + "."@ + decimal(0) =~= a + "."@ + b + ".0"@);
}

// Numbers that are no higher than they need be.

/// A highest number above zero is the number of one of the tags.
pub proof fn lemma_highest_is_used(tags: Seq<Seq<char>>, prefix: Seq<char>, hyphen: bool)
    ensures
        highest(tags, prefix, hyphen) <= u32::MAX,
        highest(tags, prefix, hyphen) > 0 ==> exists|i: int|
            0 <= i < tags.len() && number_in(#[trigger] tags[i], prefix, hyphen) == Some(
                highest(tags, prefix, hyphen) as u32,
            ),
    decreases tags.len(),
{
    if tags.len() > 0 {
        let first = tags.drop_last();
        lemma_highest_is_used(first, prefix, hyphen);
        let most = highest(tags, prefix, hyphen);
        if most > 0 {
            if most == highest(first, prefix, hyphen) {
                let i = choose|i: int|
                    0 <= i < first.len() && number_in(#[trigger] first[i], prefix, hyphen) == Some(
                        most as u32,
                    );
                assert(tags[i] == first[i]);
            } else {
                assert(tags[tags.len() - 1] == tags.last());
            }
        }
    }
}

/// A pre-release has a number above one only where a tag of the same package, version and channel
/// has the number before it.
pub proof fn law_prerelease_numbers_leave_no_gap(
    tags: &[String],
    package: &str,
    version: &str,
    channel: &str,
    r: Option<u32>,
)
    requires
        call_ensures(checked_prerelease_number, (tags, package, version, channel), r),
    ensures
        ({
            let start = package@ + "-v"@ + version@ + "-"@ + channel@ + "."@;
            &&& r matches Some(number) ==> number > 0 && (number > 1 ==> exists|i: int|
                0 <= i < tags@.len() && has_prefix(#[trigger] tags@[i]@, start) && read_u32(
                    tags@[i]@.skip(start.len() as int),
                ) == Some((number - 1) as u32))
            &&& r is None ==> exists|i: int|
                0 <= i < tags@.len() && has_prefix(#[trigger] tags@[i]@, start) && read_u32(
                    tags@[i]@.skip(start.len() as int),
                ) == Some(u32::MAX)
        }),
{
    let start = package@ + "-v"@ + version@ + "-"@ + channel@ + "."@;
    let all = views(tags@);
    lemma_highest_is_used(all, start, false);
    if highest(all, start, false) > 0 {
        let i = choose|i: int|
            0 <= i < all.len() && number_in(#[trigger] all[i], start, false) == Some(
                highest(all, start, false) as u32,
            );
        assert(all[i] == tags@[i]@);
    }
}

/// A release has a number above one only where a tag of the same day has the number before it,
/// up to a hyphen.
pub proof fn law_release_numbers_leave_no_gap(tags: &[String], today: &str, r: Option<String>)
    requires
        call_ensures(checked_release_base, (tags, today), r),
    ensures
        ({
            let start = "release-v"@ + today@ + "."@;
            &&& r matches Some(base) ==> exists|number: u32|
                #![trigger decimal(number as nat)]
                number > 0 && base@ == start + decimal(number as nat) && (number > 1 ==> exists|
                    i: int,
                |
                    0 <= i < tags@.len() && has_prefix(#[trigger] tags@[i]@, start) && read_u32(
                        head(tags@[i]@.skip(start.len() as int)),
                    ) == Some((number - 1) as u32))
            &&& r is None ==> exists|i: int|
                0 <= i < tags@.len() && has_prefix(#[trigger] tags@[i]@, start) && read_u32(
                    head(tags@[i]@.skip(start.len() as int)),
                ) == Some(u32::MAX)
        }),
{
    let start = "release-v"@ + today@ + "."@;
    let all = views(tags@);
    let most = highest(all, start, true);
    lemma_highest_is_used(all, start, true);
    if most > 0 {
        let i = choose|i: int|
            0 <= i < all.len() && number_in(#[trigger] all[i], start, true) == Some(most as u32);
        assert(all[i] == tags@[i]@);
    }
    if r is Some {
        let number = (most + 1) as u32;
        assert(r->0@ == start + decimal(number as nat));
    }
}

/// What stands up to the first hyphen of a text.
pub proof fn law_heads_end_at_hyphens(head_part: Seq<char>, rest: Seq<char>)
    requires
        !head_part.contains('-'),
    ensures
        head(head_part + "-"@ + rest) == head_part,
        head(head_part) == head_part,
{
    reveal_strlit("-");
    assert("-"@ =~= seq!['-']);
    law_parts_end_at_separators(head_part, '-', rest);
}

/// Whether a tag is that of a version with three numbers.
pub open spec fn is_version_tag(tag: Seq<char>, major: u64, minor: u64, patch: u64) -> bool {
    tag == "v"@ + decimal(major as nat) + "."@ + decimal(minor as nat) + "."@ + decimal(
        patch as nat,
    )
}

proof fn lemma_version_tag(tag: Seq<char>, major: u64, minor: u64, patch: u64)
    requires
        is_version_tag(tag, major, minor, patch),
    ensures
        has_prefix(tag, "v"@),
        !has_prefix(tag, "release-v"@),
        version_in(tag) == Some(
            VersionView { major, minor, patch, pre: seq![], build: seq![] },
        ),
{
    let v = VersionView { major, minor, patch, pre: seq![], build: seq![] };
    let text = v.text();
    reveal_strlit("v");
    reveal_strlit("release-v");
    assert(tag =~= "v"@ + text);
    assert(tag.take(1) =~= "v"@);
    assert(tag.skip(1) =~= text);
    if has_prefix(tag, "release-v"@) {
        assert(tag.take(9)[0] == tag[0]);
        assert("release-v"@[0] == 'r' && "v"@[0] == 'v');
    }
    lemma_decimal(major as nat);
    assert(text[0] == decimal(major as nat)[0]);
    assert(is_digit(text[0]));
    reveal_with_fuel(without_prefixes, 2);
    if has_prefix(text, "v"@) {
        assert(text.take(1)[0] == text[0]);
        assert("v"@[0] == 'v');
    }
    law_reading_gives_back_what_was_written(v);
}

/// Where no other tag is one of a release, the changes are counted from the other version with the
/// highest numbers, the first before the second and that before the third.
pub proof fn law_previous_version_has_the_highest_numbers(
    tags: &[String],
    current: &str,
    r: Option<String>,
    i: int,
    major: u64,
    minor: u64,
    patch: u64,
    other_major: u64,
    other_minor: u64,
    other_patch: u64,
)
    requires
        call_ensures(previous_tag, (tags, current), r),
        forall|j: int|
            0 <= j < tags@.len() && #[trigger] tags@[j]@ != current@ ==> !has_prefix(
                tags@[j]@,
                "release-v"@,
            ),
        0 <= i < tags@.len(),
        tags@[i]@ != current@,
        is_version_tag(tags@[i]@, other_major, other_minor, other_patch),
    ensures
        r is Some,
        is_version_tag(r->0@, major, minor, patch) ==> {
            &&& other_major <= major
            &&& other_major == major ==> other_minor <= minor
            &&& other_major == major && other_minor == minor ==> other_patch <= patch
        },
{
    let all = views(tags@);
    assert(all[i] == tags@[i]@);
    assert(!has_release(all, current@)) by {
        if has_release(all, current@) {
            let j = choose|j: int| 0 <= j < all.len() && other_release(#[trigger] all[j], current@);
            assert(all[j] == tags@[j]@);
        }
    }
    lemma_version_tag(all[i], other_major, other_minor, other_patch);
    assert(other_version(all[i], current@));
    let k = choose|k: int| #[trigger] is_latest_version(all, current@, k) && r->0@ == all[k];
    if is_version_tag(r->0@, major, minor, patch) {
        lemma_version_tag(r->0@, major, minor, patch);
    }
}

/// Without another tag of a release or a version there is nothing to count from.
pub proof fn law_other_tags_are_not_counted_from(tags: &[String], current: &str, r: Option<String>)
    requires
        call_ensures(previous_tag, (tags, current), r),
        forall|j: int|
            0 <= j < tags@.len() ==> #[trigger] tags@[j]@ == current@ || tags@[j]@.len() == 0 || (
            tags@[j]@[0] != 'v' && !has_prefix(tags@[j]@, "release-v"@)),
    ensures
        r is None,
{
    let all = views(tags@);
    reveal_strlit("v");
    assert forall|j: int| 0 <= j < all.len() implies !other_release(#[trigger] all[j], current@)
        && !other_version(all[j], current@) by {
        assert(all[j] == tags@[j]@);
        reveal_strlit("release-v");
        assert("release-v"@.len() == 9);
        if has_prefix(all[j], "v"@) {
            assert(all[j].take(1)[0] == all[j][0]);
            assert("v"@[0] == 'v');
        }
    }
    if r is Some {
        assert(!has_release(all, current@));
        let k = choose|k: int| #[trigger] is_latest_version(all, current@, k) && r->0@ == all[k];
    }
}

/// A bump is refused for what is no version, and comes to nothing only where the number that grows
/// has no room.
pub proof fn law_bumps_need_a_version(
    current: &str,
    bump: Bump,
    r: Result<Option<String>, VersionError>,
)
    requires
        call_ensures(checked_bump, (current, bump), r),
    ensures
        parsed(current@) is None ==> (r matches Err(error) && error.message@ == "invalid version "@
            + current@),
        parsed(current@) matches Some(v) ==> {
            &&& r is Ok
            &&& bump is Current ==> r->Ok_0 is Some
            &&& bump is Major ==> (r->Ok_0 is Some <==> v.major < u64::MAX)
            &&& bump is Minor ==> (r->Ok_0 is Some <==> v.minor < u64::MAX)
            &&& bump is Patch ==> (r->Ok_0 is Some <==> v.patch < u64::MAX)
        },
{
}

/// Of several releases of the same day with the same number, the last of the list is counted from.
pub proof fn law_the_last_of_equal_releases_counts(
    tags: &[String],
    current: &str,
    r: Option<String>,
    i: int,
    year: nat,
    month: nat,
    day: nat,
    number: nat,
)
    requires
        call_ensures(previous_tag, (tags, current), r),
        r is Some,
        is_dated(r->0@, year, month, day, number),
        year <= u32::MAX,
        month <= u32::MAX,
        day <= u32::MAX,
        number <= u32::MAX,
        0 <= i < tags@.len(),
        tags@[i]@ != current@,
        is_dated(tags@[i]@, year, month, day, number),
    ensures
        exists|k: int| i <= k < tags@.len() && #[trigger] tags@[k]@ == r->0@,
{
    let all = views(tags@);
    assert(all[i] == tags@[i]@);
    lemma_dated_key(r->0@, year, month, day, number);
    lemma_dated_key(all[i], year, month, day, number);
    assert(other_release(all[i], current@));
    assert(has_release(all, current@));
    let k = choose|k: int| #[trigger] is_latest_release(all, current@, k) && r->0@ == all[k];
    assert(tags@[k]@ == r->0@);
}

} // verus!
