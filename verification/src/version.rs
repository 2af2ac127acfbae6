//! Semantic versions.

use crate::number::{all_digits, decimal, lemma_decimal, lemma_decimal_injective, to_decimal};
use crate::text::{
    before, drop_start, is_alnum, is_digit, lemma_before_irreflexive, lemma_before_total,
    lemma_before_transitive, only, split_on,
};
use std::cmp::Ordering;
use vstd::prelude::*;

verus! {

/// `semver::Error`: why a text is no version.
#[verifier::external_type_specification]
#[verifier::external_body]
pub struct ExVersionError(semver::Error);

/// A version.
#[derive(Debug, Clone, PartialEq, Eq)]
pub struct Version {
    pub major: u64,
    pub minor: u64,
    pub patch: u64,
    /// What follows the hyphen; empty in a version that is no pre-release.
    pub pre: String,
    /// What follows the plus sign.
    pub build: String,
}

/// What a version says.
#[verifier::ext_equal]
pub struct VersionView {
    pub major: u64,
    pub minor: u64,
    pub patch: u64,
    pub pre: Seq<char>,
    pub build: Seq<char>,
}

impl View for Version {
    type V = VersionView;

    open spec fn view(&self) -> VersionView {
        VersionView {
            major: self.major,
            minor: self.minor,
            patch: self.patch,
            pre: self.pre@,
            build: self.build@,
        }
    }
}

/// A nonempty run of letters, digits and hyphens.
pub open spec fn is_identifier(part: Seq<char>) -> bool {
    part.len() > 0 && forall|i: int|
        0 <= i < part.len() ==> is_alnum(#[trigger] part[i]) || part[i] == '-'
}

/// Identifiers with dots between them; those that are numbers have no leading zeros.
pub open spec fn is_pre(text: Seq<char>) -> bool {
    forall|i: int|
        0 <= i < split_on(text, '.').len() ==> {
            let part = #[trigger] split_on(text, '.')[i];
            is_identifier(part) && !(all_digits(part) && part.len() > 1 && part[0] == '0')
        }
}

/// Identifiers with dots between them.
pub open spec fn is_build(text: Seq<char>) -> bool {
    forall|i: int|
        0 <= i < split_on(text, '.').len() ==> is_identifier(#[trigger] split_on(text, '.')[i])
}

impl VersionView {
    /// The pre-release and the build are empty or in form.
    pub open spec fn valid(self) -> bool {
        &&& self.pre.len() == 0 || is_pre(self.pre)
        &&& self.build.len() == 0 || is_build(self.build)
    }

    /// The version in writing.
    pub open spec fn text(self) -> Seq<char> {
        decimal(self.major as nat) + ("."@ + (decimal(self.minor as nat) + ("."@ + (decimal(
            self.patch as nat,
        ) + (pre_text(self.pre) + build_text(self.build))))))
    }

    /// Whether a version comes before another: the numbers decide, then the pre-release, then
    /// the build.
    pub open spec fn older(self, other: VersionView) -> bool {
        if self.major != other.major {
            self.major < other.major
        } else if self.minor != other.minor {
            self.minor < other.minor
        } else if self.patch != other.patch {
            self.patch < other.patch
        } else if self.pre != other.pre {
            pre_before(self.pre, other.pre)
        } else {
            build_before(self.build, other.build)
        }
    }
}

/// The pre-release with its hyphen.
pub open spec fn pre_text(pre: Seq<char>) -> Seq<char> {
    if pre.len() == 0 {
        seq![]
    } else {
        "-"@ + pre
    }
}

/// The build with its plus sign.
pub open spec fn build_text(build: Seq<char>) -> Seq<char> {
    if build.len() == 0 {
        seq![]
    } else {
        "+"@ + build
    }
}

// Order.

/// Digits only.
pub open spec fn numeric(part: Seq<char>) -> bool {
    part.len() == 0 || all_digits(part)
}

/// Numbers come before other identifiers; a number with fewer digits before one with more;
/// else the characters decide.
pub open spec fn pre_part_before(a: Seq<char>, b: Seq<char>) -> bool {
    if numeric(a) && numeric(b) {
        a.len() < b.len() || a.len() == b.len() && before(a, b)
    } else if numeric(a) || numeric(b) {
        numeric(a)
    } else {
        before(a, b)
    }
}

/// A number without its leading zeros.
pub open spec fn bare(part: Seq<char>) -> Seq<char> {
    drop_start(part, only('0'))
}

/// Numbers come before other identifiers, by value, then by the number of leading zeros; else
/// the characters decide.
pub open spec fn build_part_before(a: Seq<char>, b: Seq<char>) -> bool {
    if numeric(a) && numeric(b) {
        if bare(a).len() != bare(b).len() {
            bare(a).len() < bare(b).len()
        } else if bare(a) != bare(b) {
            before(bare(a), bare(b))
        } else {
            a.len() < b.len()
        }
    } else if numeric(a) || numeric(b) {
        numeric(a)
    } else {
        before(a, b)
    }
}

/// The first difference decides; of two lists one of which begins the other, the shorter comes
/// first.
pub open spec fn parts_before(
    a: Seq<Seq<char>>,
    b: Seq<Seq<char>>,
    part_before: spec_fn(Seq<char>, Seq<char>) -> bool,
) -> bool
    decreases a.len(),
{
    if b.len() == 0 {
        false
    } else if a.len() == 0 {
        true
    } else if a[0] != b[0] {
        part_before(a[0], b[0])
    } else {
        parts_before(a.skip(1), b.skip(1), part_before)
    }
}

/// The order of the parts of pre-releases.
pub open spec fn pre_order() -> spec_fn(Seq<char>, Seq<char>) -> bool {
    |a: Seq<char>, b: Seq<char>| pre_part_before(a, b)
}

/// The order of the parts of builds.
pub open spec fn build_order() -> spec_fn(Seq<char>, Seq<char>) -> bool {
    |a: Seq<char>, b: Seq<char>| build_part_before(a, b)
}

/// The order of pre-releases; what is none comes last.
pub open spec fn pre_before(a: Seq<char>, b: Seq<char>) -> bool {
    if a.len() == 0 || b.len() == 0 {
        a.len() > 0
    } else {
        parts_before(split_on(a, '.'), split_on(b, '.'), pre_order())
    }
}

/// The order of builds.
pub open spec fn build_before(a: Seq<char>, b: Seq<char>) -> bool {
    parts_before(split_on(a, '.'), split_on(b, '.'), build_order())
}

// Reading and comparing.

/// The version that a text writes.
pub open spec fn parsed(text: Seq<char>) -> Option<VersionView> {
    if exists|v: VersionView| v.valid() && #[trigger] v.text() == text {
        Some(choose|v: VersionView| v.valid() && #[trigger] v.text() == text)
    } else {
        None
    }
}

/// `semver::Version::parse`: it reads every text of a valid version as that version, and
/// refuses every other text.
#[verifier::external_body]
fn read(text: &str) -> (r: Result<Version, semver::Error>)
    ensures
        match r {
            Ok(v) => v@.valid() && v@.text() == text@,
            Err(_) => forall|v: VersionView| v.valid() ==> #[trigger] v.text() != text@,
        },
{
    let version = semver::Version::parse(text)?;
    Ok(
        Version {
            major: version.major,
            minor: version.minor,
            patch: version.patch,
            pre: version.pre.as_str().to_string(),
            build: version.build.as_str().to_string(),
        },
    )
}

/// The order of `semver::Version`: the numbers, then the pre-releases, then the builds.
#[verifier::external_body]
fn semver_ordering(a: &Version, b: &Version) -> (r: Ordering)
    requires
        a@.valid(),
        b@.valid(),
    ensures
        match r {
            Ordering::Less => a@.older(b@),
            Ordering::Equal => a@ == b@,
            Ordering::Greater => b@.older(a@),
        },
{
    let mut left = semver::Version::new(a.major, a.minor, a.patch);
    left.pre = semver::Prerelease::new(&a.pre).unwrap();
    left.build = semver::BuildMetadata::new(&a.build).unwrap();
    let mut right = semver::Version::new(b.major, b.minor, b.patch);
    right.pre = semver::Prerelease::new(&b.pre).unwrap();
    right.build = semver::BuildMetadata::new(&b.build).unwrap();
    left.cmp(&right)
}

impl Version {
    /// The version that a text writes.
    pub fn parse(text: &str) -> (r: Result<Version, semver::Error>)
        ensures
            match r {
                Ok(v) => v@.valid() && parsed(text@) == Some(v@),
                Err(_) => parsed(text@) is None,
            },
    {
        let r = read(text);
        proof {
            if let Ok(ref v) = r {
                law_reading_gives_back_what_was_written(v@);
            }
        }
        r
    }

    /// The version in writing.
    pub fn text(&self) -> (r: String)
        ensures
            r@ == self@.text(),
    {
        let mut out = to_decimal(self.major);
        out.append(".");
        out.append(to_decimal(self.minor).as_str());
        out.append(".");
        out.append(to_decimal(self.patch).as_str());
        if !self.pre.as_str().is_empty() {
            out.append("-");
            out.append(self.pre.as_str());
        }
        if !self.build.as_str().is_empty() {
            out.append("+");
            out.append(self.build.as_str());
        }
        assert(out@ =~= self@.text());
        out
    }

    /// The order of two versions.
    pub fn ordering(&self, other: &Version) -> (r: Ordering)
        requires
            self@.valid(),
            other@.valid(),
        ensures
            match r {
                Ordering::Less => self@.older(other@),
                Ordering::Equal => self@ == other@,
                Ordering::Greater => other@.older(self@),
            },
    {
        semver_ordering(self, other)
    }

    /// Whether a version comes before another.
    pub fn is_older(&self, other: &Version) -> (r: bool)
        requires
            self@.valid(),
            other@.valid(),
        ensures
            r == self@.older(other@),
    {
        proof {
            law_versions_are_totally_ordered(self@, other@);
        }
        match semver_ordering(self, other) {
            Ordering::Less => true,
            _ => false,
        }
    }
}

// What is written can be read.

/// Where two texts are equal, each begun by characters inside a set and gone on with by one
/// outside it or by nothing, they are begun and gone on with alike.
proof fn lemma_cut(
    x: Seq<char>,
    y: Seq<char>,
    t: Seq<char>,
    u: Seq<char>,
    inside: spec_fn(char) -> bool,
)
    requires
        x + t == y + u,
        forall|i: int| 0 <= i < x.len() ==> inside(#[trigger] x[i]),
        forall|i: int| 0 <= i < y.len() ==> inside(#[trigger] y[i]),
        t.len() == 0 || !inside(t[0]),
        u.len() == 0 || !inside(u[0]),
    ensures
        x == y,
        t == u,
{
    let all = x + t;
    if x.len() < y.len() {
        assert(all[x.len() as int] == y[x.len() as int]);
        assert(all[x.len() as int] == t[0]);
    }
    if y.len() < x.len() {
        assert(all[y.len() as int] == x[y.len() as int]);
        assert(all[y.len() as int] == u[0]);
    }
    assert(x =~= all.take(x.len() as int));
    assert(y =~= all.take(y.len() as int));
    assert(t =~= all.skip(x.len() as int));
    assert(u =~= all.skip(y.len() as int));
}

proof fn lemma_number_cut(a: u64, b: u64, t: Seq<char>, u: Seq<char>)
    requires
        decimal(a as nat) + t == decimal(b as nat) + u,
        t.len() == 0 || !is_digit(t[0]),
        u.len() == 0 || !is_digit(u[0]),
    ensures
        a == b,
        t == u,
{
    lemma_decimal(a as nat);
    lemma_decimal(b as nat);
    lemma_cut(decimal(a as nat), decimal(b as nat), t, u, |c: char| is_digit(c));
    lemma_decimal_injective(a as nat, b as nat);
}

proof fn lemma_dots(t: Seq<char>, u: Seq<char>)
    requires
        "."@ + t == "."@ + u,
    ensures
        t == u,
{
    reveal_strlit(".");
    assert(t =~= ("."@ + t).skip(1));
    assert(u =~= ("."@ + u).skip(1));
}

/// What a text in form is made of.
proof fn lemma_split_chars(text: Seq<char>, c: char)
    requires
        forall|i: int|
            0 <= i < split_on(text, c).len() ==> is_identifier(#[trigger] split_on(text, c)[i]),
    ensures
        text.len() > 0,
        forall|k: int|
            0 <= k < text.len() ==> is_alnum(#[trigger] text[k]) || text[k] == '-' || text[k] == c,
    decreases text.len(),
{
    let n = crate::text::upto(text, c);
    crate::text::lemma_run_len(text, only(c));
    let parts = split_on(text, c);
    assert(is_identifier(parts[0]));
    if n < text.len() {
        let rest = text.skip(n + 1);
        assert(parts =~= seq![text.take(n)] + split_on(rest, c));
        assert forall|i: int| 0 <= i < split_on(rest, c).len() implies is_identifier(
            #[trigger] split_on(rest, c)[i],
        ) by {
            assert(split_on(rest, c)[i] == parts[i + 1]);
        }
        lemma_split_chars(rest, c);
        assert forall|k: int| 0 <= k < text.len() implies is_alnum(#[trigger] text[k]) || text[k]
            == '-' || text[k] == c by {
            if k < n {
                assert(parts[0][k] == text[k]);
            } else if k > n {
                assert(rest[k - n - 1] == text[k]);
            }
        }
    } else {
        assert(parts[0] =~= text);
    }
}

proof fn lemma_pre_chars(pre: Seq<char>)
    requires
        pre.len() == 0 || is_pre(pre),
    ensures
        forall|k: int| 0 <= k < pre.len() ==> #[trigger] pre[k] != '+',
{
    if pre.len() > 0 {
        assert forall|i: int| 0 <= i < split_on(pre, '.').len() implies is_identifier(
            #[trigger] split_on(pre, '.')[i],
        ) by {}
        lemma_split_chars(pre, '.');
    }
}

/// What the text of a version is made of.
pub proof fn lemma_text_chars(v: VersionView)
    requires
        v.valid(),
    ensures
        v.text().len() > 0,
        is_digit(v.text()[0]),
        forall|k: int|
            0 <= k < v.text().len() ==> {
                let c = #[trigger] v.text()[k];
                is_alnum(c) || c == '-' || c == '+' || c == '.'
            },
{
    reveal_strlit(".");
    reveal_strlit("-");
    reveal_strlit("+");
    lemma_decimal(v.major as nat);
    lemma_decimal(v.minor as nat);
    lemma_decimal(v.patch as nat);
    if v.pre.len() > 0 {
        assert forall|i: int| 0 <= i < split_on(v.pre, '.').len() implies is_identifier(
            #[trigger] split_on(v.pre, '.')[i],
        ) by {}
        lemma_split_chars(v.pre, '.');
    }
    if v.build.len() > 0 {
        lemma_split_chars(v.build, '.');
    }
    let a = decimal(v.major as nat);
    let b = decimal(v.minor as nat);
    let c = decimal(v.patch as nat);
    let tail = pre_text(v.pre) + build_text(v.build);
    assert(v.text() =~= a + "."@ + b + "."@ + c + tail);
    assert(is_digit(a[0]));
}

/// Different versions are written differently.
pub proof fn law_versions_are_written_differently(a: VersionView, b: VersionView)
    requires
        a.valid(),
        b.valid(),
        a.text() == b.text(),
    ensures
        a == b,
{
    reveal_strlit(".");
    reveal_strlit("-");
    reveal_strlit("+");
    let at = pre_text(a.pre) + build_text(a.build);
    let bt = pre_text(b.pre) + build_text(b.build);
    let ap = decimal(a.patch as nat) + at;
    let bp = decimal(b.patch as nat) + bt;
    let am = decimal(a.minor as nat) + ("."@ + ap);
    let bm = decimal(b.minor as nat) + ("."@ + bp);
    lemma_number_cut(a.major, b.major, "."@ + am, "."@ + bm);
    lemma_dots(am, bm);
    lemma_number_cut(a.minor, b.minor, "."@ + ap, "."@ + bp);
    lemma_dots(ap, bp);
    lemma_number_cut(a.patch, b.patch, at, bt);
    lemma_pre_chars(a.pre);
    lemma_pre_chars(b.pre);
    lemma_cut(
        pre_text(a.pre),
        pre_text(b.pre),
        build_text(a.build),
        build_text(b.build),
        |c: char| c != '+',
    );
    assert(a.pre =~= pre_text(a.pre).skip(if a.pre.len() == 0 { 0 } else { 1 }));
    assert(b.pre =~= pre_text(b.pre).skip(if b.pre.len() == 0 { 0 } else { 1 }));
    assert(a.build =~= build_text(a.build).skip(if a.build.len() == 0 { 0 } else { 1 }));
    assert(b.build =~= build_text(b.build).skip(if b.build.len() == 0 { 0 } else { 1 }));
    assert(a =~= b);
}

/// The text of a version is read as that version.
pub proof fn law_reading_gives_back_what_was_written(v: VersionView)
    requires
        v.valid(),
    ensures
        parsed(v.text()) == Some(v),
{
    let text = v.text();
    let w = choose|w: VersionView| w.valid() && #[trigger] w.text() == text;
    law_versions_are_written_differently(v, w);
}

// The order is total.

/// A part of a valid pre-release or build has an order of its own kind.
proof fn lemma_bare(a: Seq<char>, b: Seq<char>)
    requires
        bare(a) == bare(b),
        a.len() == b.len(),
    ensures
        a == b,
    decreases a.len(),
{
    if a.len() == 0 {
        assert(a =~= b);
    } else {
        lemma_bare_len(a);
        lemma_bare_len(b);
        if a[0] == '0' {
            if b[0] == '0' {
                lemma_bare(a.skip(1), b.skip(1));
                assert(a =~= seq![a[0]] + a.skip(1));
                assert(b =~= seq![b[0]] + b.skip(1));
            } else {
                lemma_bare_len(a.skip(1));
            }
        } else if b[0] == '0' {
            lemma_bare_len(b.skip(1));
        }
    }
}

proof fn lemma_bare_len(a: Seq<char>)
    ensures
        bare(a).len() <= a.len(),
    decreases a.len(),
{
    if a.len() > 0 && a[0] == '0' {
        lemma_bare_len(a.skip(1));
    }
}

proof fn lemma_part_order(a: Seq<char>, b: Seq<char>, c: Seq<char>)
    ensures
        !pre_part_before(a, a),
        a != b ==> pre_part_before(a, b) || pre_part_before(b, a),
        pre_part_before(a, b) && pre_part_before(b, c) ==> pre_part_before(a, c),
        !build_part_before(a, a),
        a != b ==> build_part_before(a, b) || build_part_before(b, a),
        build_part_before(a, b) && build_part_before(b, c) ==> build_part_before(a, c),
{
    lemma_before_irreflexive(a);
    lemma_before_total(a, b);
    lemma_before_irreflexive(bare(a));
    lemma_before_total(bare(a), bare(b));
    if before(a, b) && before(b, c) {
        lemma_before_transitive(a, b, c);
    }
    if before(bare(a), bare(b)) && before(bare(b), bare(c)) {
        lemma_before_transitive(bare(a), bare(b), bare(c));
    }
    if before(bare(a), bare(b)) && before(bare(b), bare(a)) {
        lemma_before_transitive(bare(a), bare(b), bare(a));
    }
    if bare(a) == bare(b) && a.len() == b.len() {
        lemma_bare(a, b);
    }
}

/// An order of parts that is strict, total and transitive.
spec fn orders(part_before: spec_fn(Seq<char>, Seq<char>) -> bool) -> bool {
    &&& forall|a: Seq<char>| !#[trigger] part_before(a, a)
    &&& forall|a: Seq<char>, b: Seq<char>|
        a != b ==> #[trigger] part_before(a, b) || part_before(b, a)
    &&& forall|a: Seq<char>, b: Seq<char>, c: Seq<char>|
        #[trigger] part_before(a, b) && #[trigger] part_before(b, c) ==> part_before(a, c)
}

proof fn lemma_orders()
    ensures
        orders(pre_order()),
        orders(build_order()),
{
    assert forall|a: Seq<char>| !#[trigger] pre_order()(a, a) by {
        lemma_part_order(a, a, a);
    }
    assert forall|a: Seq<char>| !#[trigger] build_order()(a, a) by {
        lemma_part_order(a, a, a);
    }
    assert forall|a: Seq<char>, b: Seq<char>| a != b implies #[trigger] pre_order()(a, b)
        || pre_order()(b, a) by {
        lemma_part_order(a, b, b);
    }
    assert forall|a: Seq<char>, b: Seq<char>| a != b implies #[trigger] build_order()(a, b)
        || build_order()(b, a) by {
        lemma_part_order(a, b, b);
    }
    assert forall|a: Seq<char>, b: Seq<char>, c: Seq<char>| #[trigger]
        pre_order()(a, b) && #[trigger] pre_order()(b, c) implies pre_order()(a, c) by {
        lemma_part_order(a, b, c);
    }
    assert forall|a: Seq<char>, b: Seq<char>, c: Seq<char>| #[trigger]
        build_order()(a, b) && #[trigger] build_order()(b, c) implies build_order()(a, c) by {
        lemma_part_order(a, b, c);
    }
}

proof fn lemma_parts_total(
    a: Seq<Seq<char>>,
    b: Seq<Seq<char>>,
    part_before: spec_fn(Seq<char>, Seq<char>) -> bool,
)
    requires
        orders(part_before),
    ensures
        !parts_before(a, a, part_before),
        a != b ==> parts_before(a, b, part_before) || parts_before(b, a, part_before),
        !(parts_before(a, b, part_before) && parts_before(b, a, part_before)),
    decreases a.len(),
{
    if a.len() > 0 {
        lemma_parts_total(a.skip(1), b.skip(1), part_before);
        if b.len() > 0 {
            if a[0] == b[0] {
                if a.skip(1) == b.skip(1) {
                    assert(a =~= seq![a[0]] + a.skip(1));
                    assert(b =~= seq![b[0]] + b.skip(1));
                }
            } else if part_before(a[0], b[0]) && part_before(b[0], a[0]) {
                assert(part_before(a[0], a[0]));
            }
        }
    } else if b.len() == 0 {
        assert(a =~= b);
    }
}

proof fn lemma_parts_transitive(
    a: Seq<Seq<char>>,
    b: Seq<Seq<char>>,
    c: Seq<Seq<char>>,
    part_before: spec_fn(Seq<char>, Seq<char>) -> bool,
)
    requires
        orders(part_before),
        parts_before(a, b, part_before),
        parts_before(b, c, part_before),
    ensures
        parts_before(a, c, part_before),
    decreases a.len(),
{
    if a.len() > 0 {
        if a[0] == b[0] && b[0] == c[0] {
            lemma_parts_transitive(a.skip(1), b.skip(1), c.skip(1), part_before);
        } else if a[0] != b[0] && b[0] != c[0] {
            assert(part_before(a[0], c[0]));
            if a[0] == c[0] {
                assert(part_before(a[0], a[0]));
            }
        }
    }
}

/// The parts of a text, put together again.
proof fn lemma_split_injective(a: Seq<char>, b: Seq<char>, c: char)
    requires
        split_on(a, c) == split_on(b, c),
    ensures
        a == b,
    decreases a.len(),
{
    let n = crate::text::upto(a, c);
    let m = crate::text::upto(b, c);
    crate::text::lemma_run_len(a, only(c));
    crate::text::lemma_run_len(b, only(c));
    let x = split_on(a, c);
    let y = split_on(b, c);
    if n < a.len() {
        assert(x =~= seq![a.take(n)] + split_on(a.skip(n + 1), c));
        lemma_split_len(a.skip(n + 1), c);
    }
    if m < b.len() {
        assert(y =~= seq![b.take(m)] + split_on(b.skip(m + 1), c));
        lemma_split_len(b.skip(m + 1), c);
    }
    assert(x[0] == y[0]);
    if n < a.len() && m < b.len() {
        assert(split_on(a.skip(n + 1), c) =~= x.skip(1));
        assert(split_on(b.skip(m + 1), c) =~= y.skip(1));
        lemma_split_injective(a.skip(n + 1), b.skip(m + 1), c);
        assert(a.take(n) == b.take(m));
        assert(n == a.take(n).len() && m == b.take(m).len());
        assert(a =~= a.take(n) + seq![c] + a.skip(n + 1));
        assert(b =~= b.take(m) + seq![c] + b.skip(m + 1));
    } else if n >= a.len() && m >= b.len() {
        assert(x[0] == a && y[0] == b);
    }
}

proof fn lemma_split_len(a: Seq<char>, c: char)
    ensures
        split_on(a, c).len() > 0,
    decreases a.len(),
{
}

/// Of two versions exactly one comes before the other, unless they are the same.
pub proof fn law_versions_are_totally_ordered(a: VersionView, b: VersionView)
    ensures
        !a.older(a),
        a != b ==> a.older(b) || b.older(a),
        !(a.older(b) && b.older(a)),
{
    lemma_orders();
    lemma_parts_total(split_on(a.pre, '.'), split_on(b.pre, '.'), pre_order());
    lemma_parts_total(split_on(a.build, '.'), split_on(b.build, '.'), build_order());
    lemma_parts_total(split_on(a.build, '.'), split_on(a.build, '.'), build_order());
    if split_on(a.pre, '.') == split_on(b.pre, '.') {
        lemma_split_injective(a.pre, b.pre, '.');
    }
    if split_on(a.build, '.') == split_on(b.build, '.') {
        lemma_split_injective(a.build, b.build, '.');
    }
    if a.pre.len() == 0 && b.pre.len() == 0 {
        assert(a.pre =~= b.pre);
    }
}

/// The order of versions is transitive.
pub proof fn law_version_order_is_transitive(a: VersionView, b: VersionView, c: VersionView)
    requires
        a.older(b),
        b.older(c),
    ensures
        a.older(c),
{
    lemma_orders();
    law_versions_are_totally_ordered(a, b);
    law_versions_are_totally_ordered(b, c);
    law_versions_are_totally_ordered(a, c);
    if a.pre == c.pre && a.pre != b.pre {
        lemma_parts_total(split_on(a.pre, '.'), split_on(b.pre, '.'), pre_order());
    }
    if parts_before(split_on(a.pre, '.'), split_on(b.pre, '.'), pre_order()) && parts_before(
        split_on(b.pre, '.'),
        split_on(c.pre, '.'),
        pre_order(),
    ) {
        lemma_parts_transitive(
            split_on(a.pre, '.'),
            split_on(b.pre, '.'),
            split_on(c.pre, '.'),
            pre_order(),
        );
    }
    if parts_before(split_on(a.build, '.'), split_on(b.build, '.'), build_order())
        && parts_before(split_on(b.build, '.'), split_on(c.build, '.'), build_order()) {
        lemma_parts_transitive(
            split_on(a.build, '.'),
            split_on(b.build, '.'),
            split_on(c.build, '.'),
            build_order(),
        );
    }
}

/// The first of the three numbers that differs decides which of two versions is older; a
/// pre-release is older than the version that it leads to.
pub proof fn law_versions_go_by_their_numbers(a: VersionView, b: VersionView)
    ensures
        a.major < b.major ==> a.older(b) && !b.older(a),
        a.major == b.major && a.minor < b.minor ==> a.older(b) && !b.older(a),
        a.major == b.major && a.minor == b.minor && a.patch < b.patch ==> a.older(b) && !b.older(a),
        a.major == b.major && a.minor == b.minor && a.patch == b.patch && a.pre.len() > 0
            && b.pre.len() == 0 ==> a.older(b) && !b.older(a),
{
}

/// Three numbers with dots between them are read as the version with these numbers.
pub proof fn law_three_numbers_are_a_version(
    text: &str,
    r: Result<Version, semver::Error>,
    major: u64,
    minor: u64,
    patch: u64,
)
    requires
        call_ensures(Version::parse, (text,), r),
        text@ == decimal(major as nat) + "."@ + decimal(minor as nat) + "."@ + decimal(
            patch as nat,
        ),
    ensures
        r matches Ok(v) && v.major == major && v.minor == minor && v.patch == patch && v.pre@.len()
            == 0 && v.build@.len() == 0,
{
    let v = VersionView { major, minor, patch, pre: seq![], build: seq![] };
    assert(v.text() =~= text@);
    law_reading_gives_back_what_was_written(v);
}

/// Comparing two versions goes by their numbers; of the same numbers a pre-release is older than
/// the version itself.
pub proof fn law_comparing_goes_by_numbers(a: &Version, b: &Version, older: bool)
    requires
        call_ensures(Version::is_older, (a, b), older),
    ensures
        a.major < b.major ==> older,
        a.major > b.major ==> !older,
        a.major == b.major && a.minor < b.minor ==> older,
        a.major == b.major && a.minor > b.minor ==> !older,
        a.major == b.major && a.minor == b.minor && a.patch < b.patch ==> older,
        a.major == b.major && a.minor == b.minor && a.patch > b.patch ==> !older,
        a.major == b.major && a.minor == b.minor && a.patch == b.patch && a.pre@.len() > 0
            && b.pre@.len() == 0 ==> older,
        a.major == b.major && a.minor == b.minor && a.patch == b.patch && a.pre@.len() == 0
            && b.pre@.len() > 0 ==> !older,
{
    law_versions_go_by_their_numbers(a@, b@);
    law_versions_go_by_their_numbers(b@, a@);
}

} // verus!
