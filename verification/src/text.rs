//! Text as sequences of characters.
//!
//! A string's view is the sequence of its characters. The specification functions of this
//! module say what the usual operations on text mean on such sequences; beside each stands the
//! executable function that computes it.

use vstd::prelude::*;

verus! {

/// `String::push` appends one character to the end of the string.
pub assume_specification[ String::push ](text: &mut String, c: char)
    ensures
        final(text)@ == old(text)@.push(c),
;

/// The views of a list of strings.
pub open spec fn views(list: Seq<String>) -> Seq<Seq<char>> {
    list.map_values(|s: String| s@)
}

/// The Unicode `White_Space` property, which `str::trim` and `str::split_whitespace` go by.
pub open spec fn is_space(c: char) -> bool {
    let n = c as u32;
    ||| 0x09 <= n <= 0x0d
    ||| n == 0x20
    ||| n == 0x85
    ||| n == 0xa0
    ||| n == 0x1680
    ||| 0x2000 <= n <= 0x200a
    ||| n == 0x2028
    ||| n == 0x2029
    ||| n == 0x202f
    ||| n == 0x205f
    ||| n == 0x3000
}

/// Whether a character is white space.
pub fn space(c: char) -> (r: bool)
    ensures
        r == is_space(c),
{
    let n: u32 = c as u32;
    (0x09 <= n && n <= 0x0d) || n == 0x20 || n == 0x85 || n == 0xa0 || n == 0x1680
        || (0x2000 <= n && n <= 0x200a) || n == 0x2028 || n == 0x2029 || n == 0x202f
        || n == 0x205f || n == 0x3000
}

pub open spec fn is_digit(c: char) -> bool {
    '0' <= c <= '9'
}

pub open spec fn is_alpha(c: char) -> bool {
    'A' <= c <= 'Z' || 'a' <= c <= 'z'
}

pub open spec fn is_alnum(c: char) -> bool {
    is_alpha(c) || is_digit(c)
}

pub open spec fn is_hex(c: char) -> bool {
    is_digit(c) || 'a' <= c <= 'f' || 'A' <= c <= 'F'
}

/// Whether a character is an ASCII letter or digit.
pub fn alnum(c: char) -> (r: bool)
    ensures
        r == is_alnum(c),
{
    ('A' <= c && c <= 'Z') || ('a' <= c && c <= 'z') || ('0' <= c && c <= '9')
}

/// Whether a character is a hexadecimal digit.
pub fn hex(c: char) -> (r: bool)
    ensures
        r == is_hex(c),
{
    ('0' <= c && c <= '9') || ('a' <= c && c <= 'f') || ('A' <= c && c <= 'F')
}

/// The characters of a string, as a vector.
pub fn chars_of(s: &str) -> (r: Vec<char>)
    ensures
        r@ == s@,
{
    let mut out: Vec<char> = Vec::new();
    for c in it: s.chars()
        invariant
            out@ == s@.take(it.index()),
            it.seq() == s@,
    {
        out.push(c);
    }
    out
}

/// The string made of `cs[from..to]`.
pub fn piece(cs: &[char], from: usize, to: usize) -> (r: String)
    requires
        from <= to <= cs@.len(),
    ensures
        r@ == cs@.subrange(from as int, to as int),
{
    let mut out = String::new();
    let mut i: usize = from;
    while i < to
        invariant
            from <= i <= to <= cs@.len(),
            out@ == cs@.subrange(from as int, i as int),
        decreases to - i,
    {
        out.push(cs[i]);
        i += 1;
    }
    out
}

/// Whether two strings hold the same characters.
pub fn same(a: &str, b: &str) -> (r: bool)
    ensures
        r == (a@ == b@),
{
    let x = a.as_bytes();
    let y = b.as_bytes();
    let n: usize = x.len();
    if n != y.len() {
        return false;
    }
    for i in 0..n
        invariant
            n == x@.len() == y@.len(),
            x@ == vstd::utf8::encode_utf8(a@),
            y@ == vstd::utf8::encode_utf8(b@),
            forall|j: int| 0 <= j < i ==> x@[j] == y@[j],
    {
        if x[i] != y[i] {
            return false;
        }
    }
    proof {
        assert(x@ =~= y@);
        vstd::utf8::encode_utf8_decode_utf8(a@);
        vstd::utf8::encode_utf8_decode_utf8(b@);
    }
    true
}

// Prefixes, suffixes and occurrences.

pub open spec fn has_prefix(s: Seq<char>, p: Seq<char>) -> bool {
    p.len() <= s.len() && s.take(p.len() as int) == p
}

pub open spec fn has_suffix(s: Seq<char>, p: Seq<char>) -> bool {
    p.len() <= s.len() && s.skip(s.len() - p.len()) == p
}

/// `needle` stands in `s` at position `at`.
pub open spec fn occurs_at(s: Seq<char>, needle: Seq<char>, at: int) -> bool {
    0 <= at <= s.len() - needle.len() && s.subrange(at, at + needle.len()) == needle
}

pub open spec fn has_part(s: Seq<char>, needle: Seq<char>) -> bool {
    exists|at: int| occurs_at(s, needle, at)
}

/// `at` is the first position at which `needle` stands in `s`.
pub open spec fn first_occurrence(s: Seq<char>, needle: Seq<char>, at: int) -> bool {
    occurs_at(s, needle, at) && forall|k: int| 0 <= k < at ==> !occurs_at(s, needle, k)
}

/// Whether `needle` stands in `cs` at `at`.
fn occurs(cs: &[char], needle: &[char], at: usize) -> (r: bool)
    ensures
        r == occurs_at(cs@, needle@, at as int),
{
    let n: usize = needle.len();
    let total: usize = cs.len();
    if n > total || at > total - n {
        return false;
    }
    for i in 0..n
        invariant
            n == needle@.len(),
            total == cs@.len(),
            at + n <= total,
            forall|j: int| 0 <= j < i ==> cs@[at + j] == needle@[j],
    {
        if cs[at + i] != needle[i] {
            proof {
                assert(cs@.subrange(at as int, at + n)[i as int] != needle@[i as int]);
            }
            return false;
        }
    }
    assert(cs@.subrange(at as int, at + n) =~= needle@);
    true
}

/// Whether `s` starts with `p`.
pub fn starts_with(s: &str, p: &str) -> (r: bool)
    ensures
        r == has_prefix(s@, p@),
{
    let cs = chars_of(s);
    let ps = chars_of(p);
    let r = occurs(cs.as_slice(), ps.as_slice(), 0);
    assert(ps@.len() <= cs@.len() ==> cs@.subrange(0, ps@.len() as int) =~= cs@.take(
        ps@.len() as int,
    ));
    r
}

/// Whether `s` ends with `p`.
pub fn ends_with(s: &str, p: &str) -> (r: bool)
    ensures
        r == has_suffix(s@, p@),
{
    let cs = chars_of(s);
    let ps = chars_of(p);
    if ps.len() > cs.len() {
        return false;
    }
    let at: usize = cs.len() - ps.len();
    let r = occurs(cs.as_slice(), ps.as_slice(), at);
    assert(cs@.subrange(at as int, at + ps@.len()) =~= cs@.skip(at as int));
    r
}

/// The first position, counted in characters, at which `needle` stands in `s`.
pub fn find(s: &str, needle: &str) -> (r: Option<usize>)
    ensures
        match r {
            Some(at) => first_occurrence(s@, needle@, at as int),
            None => !has_part(s@, needle@),
        },
{
    let cs = chars_of(s);
    let ps = chars_of(needle);
    if ps.len() > cs.len() {
        return None;
    }
    let last: usize = cs.len() - ps.len();
    let mut i: usize = 0;
    while i <= last
        invariant
            cs@ == s@,
            ps@ == needle@,
            last == cs@.len() - ps@.len(),
            i <= last + 1,
            last <= cs@.len(),
            cs.len() <= usize::MAX,
            forall|k: int| 0 <= k < i ==> !occurs_at(s@, needle@, k),
        decreases last + 1 - i,
    {
        if occurs(cs.as_slice(), ps.as_slice(), i) {
            return Some(i);
        }
        if i == last {
            return None;
        }
        i += 1;
    }
    None
}

/// Whether `needle` stands anywhere in `s`.
pub fn contains(s: &str, needle: &str) -> (r: bool)
    ensures
        r == has_part(s@, needle@),
{
    match find(s, needle) {
        Some(at) => {
            assert(occurs_at(s@, needle@, at as int));
            true
        },
        None => false,
    }
}

pub open spec fn without_prefix(s: Seq<char>, p: Seq<char>) -> Option<Seq<char>> {
    if has_prefix(s, p) {
        Some(s.skip(p.len() as int))
    } else {
        None
    }
}

pub open spec fn without_suffix(s: Seq<char>, p: Seq<char>) -> Option<Seq<char>> {
    if has_suffix(s, p) {
        Some(s.take(s.len() - p.len()))
    } else {
        None
    }
}

/// The view of an optional string.
pub open spec fn view_opt(s: Option<String>) -> Option<Seq<char>> {
    match s {
        Some(s) => Some(s@),
        None => None,
    }
}

/// What follows the prefix `p`, where `s` has it.
pub fn strip_prefix(s: &str, p: &str) -> (r: Option<String>)
    ensures
        view_opt(r) == without_prefix(s@, p@),
{
    if !starts_with(s, p) {
        return None;
    }
    let cs = chars_of(s);
    let ps = chars_of(p);
    let rest = piece(cs.as_slice(), ps.len(), cs.len());
    assert(rest@ =~= s@.skip(p@.len() as int));
    Some(rest)
}

/// What stands before the suffix `p`, where `s` has it.
pub fn strip_suffix(s: &str, p: &str) -> (r: Option<String>)
    ensures
        view_opt(r) == without_suffix(s@, p@),
{
    if !ends_with(s, p) {
        return None;
    }
    let cs = chars_of(s);
    let ps = chars_of(p);
    let rest = piece(cs.as_slice(), 0, cs.len() - ps.len());
    assert(rest@ =~= s@.take(s@.len() - p@.len()));
    Some(rest)
}

/// Whether a list of strings holds `name`.
pub fn listed(list: &[String], name: &str) -> (r: bool)
    ensures
        r == views(list@).contains(name@),
{
    let n: usize = list.len();
    for i in 0..n
        invariant
            n == list@.len(),
            forall|j: int| 0 <= j < i ==> (#[trigger] list@[j])@ != name@,
    {
        if same(list[i].as_str(), name) {
            assert(views(list@)[i as int] == name@);
            return true;
        }
    }
    proof {
        assert forall|j: int| 0 <= j < views(list@).len() implies views(list@)[j] != name@ by {
            assert(views(list@)[j] == list@[j]@);
        }
    }
    false
}

// Trimming.

/// The predicate that holds of `c` alone.
pub open spec fn only(c: char) -> spec_fn(char) -> bool {
    |d: char| d == c
}

/// `s` without the leading characters that satisfy `drop`.
pub open spec fn drop_start(s: Seq<char>, drop: spec_fn(char) -> bool) -> Seq<char>
    decreases s.len(),
{
    if s.len() > 0 && drop(s[0]) {
        drop_start(s.skip(1), drop)
    } else {
        s
    }
}

/// `s` without the trailing characters that satisfy `drop`.
pub open spec fn drop_end(s: Seq<char>, drop: spec_fn(char) -> bool) -> Seq<char>
    decreases s.len(),
{
    if s.len() > 0 && drop(s.last()) {
        drop_end(s.drop_last(), drop)
    } else {
        s
    }
}

/// `s` without white space at either end.
pub open spec fn trimmed(s: Seq<char>) -> Seq<char> {
    drop_end(drop_start(s, |c: char| is_space(c)), |c: char| is_space(c))
}

/// `s` without the character `c` at either end.
pub open spec fn trimmed_of(s: Seq<char>, c: char) -> Seq<char> {
    drop_end(drop_start(s, only(c)), only(c))
}

/// A text without white space at its ends is trimmed already.
pub proof fn lemma_trimmed(s: Seq<char>)
    requires
        s.len() > 0,
        !is_space(s[0]),
        !is_space(s.last()),
    ensures
        trimmed(s) == s,
{
}

/// `s` without white space at either end.
pub fn trim(s: &str) -> (r: String)
    ensures
        r@ == trimmed(s@),
{
    let cs = chars_of(s);
    let ghost drop = |c: char| is_space(c);
    let mut from: usize = 0;
    assert(cs@.skip(0) =~= cs@);
    while from < cs.len() && space(cs[from])
        invariant
            from <= cs@.len(),
            drop == |c: char| is_space(c),
            drop_start(cs@, drop) == drop_start(cs@.skip(from as int), drop),
        decreases cs.len() - from,
    {
        assert(cs@.skip(from as int).skip(1) =~= cs@.skip(from + 1));
        from += 1;
    }
    let ghost head = cs@.skip(from as int);
    let mut to: usize = cs.len();
    assert(cs@.subrange(from as int, to as int) =~= head);
    while from < to && space(cs[to - 1])
        invariant
            from <= to <= cs@.len(),
            drop == |c: char| is_space(c),
            drop_end(head, drop) == drop_end(cs@.subrange(from as int, to as int), drop),
        decreases to,
    {
        assert(cs@.subrange(from as int, to as int).drop_last() =~= cs@.subrange(
            from as int,
            to - 1,
        ));
        to -= 1;
    }
    piece(cs.as_slice(), from, to)
}

/// `s` without the character `c` at either end.
pub fn trim_of(s: &str, c: char) -> (r: String)
    ensures
        r@ == trimmed_of(s@, c),
{
    let cs = chars_of(s);
    let ghost drop = only(c);
    let mut from: usize = 0;
    assert(cs@.skip(0) =~= cs@);
    while from < cs.len() && cs[from] == c
        invariant
            from <= cs@.len(),
            drop == only(c),
            drop_start(cs@, drop) == drop_start(cs@.skip(from as int), drop),
        decreases cs.len() - from,
    {
        assert(cs@.skip(from as int).skip(1) =~= cs@.skip(from + 1));
        from += 1;
    }
    let ghost head = cs@.skip(from as int);
    let mut to: usize = cs.len();
    assert(cs@.subrange(from as int, to as int) =~= head);
    while from < to && cs[to - 1] == c
        invariant
            from <= to <= cs@.len(),
            drop == only(c),
            drop_end(head, drop) == drop_end(cs@.subrange(from as int, to as int), drop),
        decreases to,
    {
        assert(cs@.subrange(from as int, to as int).drop_last() =~= cs@.subrange(
            from as int,
            to - 1,
        ));
        to -= 1;
    }
    piece(cs.as_slice(), from, to)
}

/// `s` without any leading repetitions of `p`.
pub open spec fn without_prefixes(s: Seq<char>, p: Seq<char>) -> Seq<char>
    decreases s.len(),
{
    if p.len() > 0 && has_prefix(s, p) {
        without_prefixes(s.skip(p.len() as int), p)
    } else {
        s
    }
}

/// `s` without any trailing repetitions of `p`.
pub open spec fn without_suffixes(s: Seq<char>, p: Seq<char>) -> Seq<char>
    decreases s.len(),
{
    if p.len() > 0 && has_suffix(s, p) {
        without_suffixes(s.take(s.len() - p.len()), p)
    } else {
        s
    }
}

/// `s` without any leading repetitions of `p`.
pub fn strip_prefixes(s: &str, p: &str) -> (r: String)
    ensures
        r@ == without_prefixes(s@, p@),
{
    let mut rest = s.to_string();
    if p.is_empty() {
        return rest;
    }
    loop
        invariant
            p@.len() > 0,
            without_prefixes(s@, p@) == without_prefixes(rest@, p@),
        decreases rest@.len(),
    {
        match strip_prefix(rest.as_str(), p) {
            Some(next) => {
                rest = next;
            },
            None => {
                return rest;
            },
        }
    }
}

/// `s` without any trailing repetitions of `p`.
pub fn strip_suffixes(s: &str, p: &str) -> (r: String)
    ensures
        r@ == without_suffixes(s@, p@),
{
    let mut rest = s.to_string();
    if p.is_empty() {
        return rest;
    }
    loop
        invariant
            p@.len() > 0,
            without_suffixes(s@, p@) == without_suffixes(rest@, p@),
        decreases rest@.len(),
    {
        match strip_suffix(rest.as_str(), p) {
            Some(next) => {
                rest = next;
            },
            None => {
                return rest;
            },
        }
    }
}

// Splitting.

/// The number of leading characters of `s` that do not satisfy `stop`.
pub open spec fn run_len(s: Seq<char>, stop: spec_fn(char) -> bool) -> nat
    decreases s.len(),
{
    if s.len() == 0 || stop(s[0]) {
        0
    } else {
        1 + run_len(s.skip(1), stop)
    }
}

pub proof fn lemma_run_len(s: Seq<char>, stop: spec_fn(char) -> bool)
    ensures
        run_len(s, stop) <= s.len(),
        forall|i: int| 0 <= i < run_len(s, stop) ==> !#[trigger] stop(s[i]),
        run_len(s, stop) < s.len() ==> stop(s[run_len(s, stop) as int]),
    decreases s.len(),
{
    if s.len() > 0 && !stop(s[0]) {
        let t = s.skip(1);
        lemma_run_len(t, stop);
        assert forall|i: int| 0 <= i < run_len(s, stop) implies !#[trigger] stop(s[i]) by {
            if i > 0 {
                assert(s[i] == t[i - 1]);
            }
        }
    }
}

pub proof fn lemma_run_len_is(s: Seq<char>, stop: spec_fn(char) -> bool, n: int)
    requires
        0 <= n <= s.len(),
        forall|i: int| 0 <= i < n ==> !#[trigger] stop(s[i]),
        n == s.len() || stop(s[n]),
    ensures
        run_len(s, stop) == n,
    decreases s.len(),
{
    if n > 0 {
        assert(!stop(s[0]));
        let t = s.skip(1);
        assert forall|i: int| 0 <= i < n - 1 implies !#[trigger] stop(t[i]) by {
            assert(t[i] == s[i + 1]);
        }
        lemma_run_len_is(t, stop, n - 1);
    }
}

/// The position of the first `c` in `s`, or the length of `s`.
pub open spec fn upto(s: Seq<char>, c: char) -> int {
    run_len(s, only(c)) as int
}

/// The parts of `s` between the occurrences of `c`.
pub open spec fn split_on(s: Seq<char>, c: char) -> Seq<Seq<char>>
    decreases s.len(),
{
    let n = upto(s, c);
    if 0 <= n < s.len() {
        seq![s.take(n)] + split_on(s.skip(n + 1), c)
    } else {
        seq![s]
    }
}

/// `s` up to its first `c` and what follows it.
pub open spec fn cut_at(s: Seq<char>, c: char) -> Option<(Seq<char>, Seq<char>)> {
    let n = upto(s, c);
    if n < s.len() {
        Some((s.take(n), s.skip(n + 1)))
    } else {
        None
    }
}

/// A line's text, without a carriage return before its line feed.
pub open spec fn without_cr(s: Seq<char>) -> Seq<char> {
    if s.len() > 0 && s.last() == '\r' {
        s.drop_last()
    } else {
        s
    }
}

/// The lines of `s`: each ends in a line feed or a carriage return and a line feed, which
/// are not part of it; the last line's ending is optional.
pub open spec fn lines_of(s: Seq<char>) -> Seq<Seq<char>>
    decreases s.len(),
{
    let n = upto(s, '\n');
    if s.len() == 0 {
        seq![]
    } else if 0 <= n < s.len() {
        seq![without_cr(s.take(n))] + lines_of(s.skip(n + 1))
    } else {
        seq![s]
    }
}

/// The maximal runs of characters of `s` that are not white space.
pub open spec fn words_of(s: Seq<char>) -> Seq<Seq<char>>
    decreases s.len(),
{
    let gap = run_len(s, |c: char| !is_space(c)) as int;
    let t = s.skip(gap);
    let n = run_len(t, |c: char| is_space(c)) as int;
    if 0 <= gap < s.len() && 0 < n <= t.len() {
        seq![t.take(n)] + words_of(t.skip(n))
    } else {
        seq![]
    }
}

/// The first position at or after `from` that holds `c`, or the length.
fn seek(cs: &[char], from: usize, c: char) -> (r: usize)
    requires
        from <= cs@.len(),
    ensures
        from <= r <= cs@.len(),
        r - from == upto(cs@.skip(from as int), c),
{
    let mut i: usize = from;
    let total: usize = cs.len();
    let ghost stop = only(c);
    let ghost rest = cs@.skip(from as int);
    while i < total && cs[i] != c
        invariant
            from <= i <= total == cs@.len(),
            rest == cs@.skip(from as int),
            stop == only(c),
            forall|j: int| 0 <= j < i - from ==> !#[trigger] stop(rest[j]),
        decreases total - i,
    {
        assert(rest[i - from] == cs@[i as int]);
        i += 1;
    }
    proof {
        if i < total {
            assert(rest[i - from] == cs@[i as int]);
        }
        lemma_run_len_is(rest, stop, i - from);
    }
    i
}

/// The parts of `s` between the occurrences of `c`.
pub fn split(s: &str, c: char) -> (r: Vec<String>)
    ensures
        views(r@) == split_on(s@, c),
        r@.len() > 0,
{
    let cs = chars_of(s);
    let mut out: Vec<String> = Vec::new();
    let mut from: usize = 0;
    assert(cs@.skip(0) =~= cs@);
    assert(views(out@) + split_on(cs@, c) =~= split_on(cs@, c));
    loop
        invariant
            cs@ == s@,
            from <= cs@.len(),
            split_on(s@, c) == views(out@) + split_on(cs@.skip(from as int), c),
        decreases cs.len() - from,
    {
        let at = seek(cs.as_slice(), from, c);
        let ghost rest = cs@.skip(from as int);
        let part = piece(cs.as_slice(), from, at);
        assert(part@ =~= rest.take(at - from));
        let ghost before = views(out@);
        out.push(part);
        assert(views(out@) =~= before.push(part@));
        if at == cs.len() {
            assert(rest.take(at - from) =~= rest);
            assert(views(out@) =~= before + seq![rest]);
            return out;
        }
        assert(rest.skip(at - from + 1) =~= cs@.skip(at + 1));
        assert(before + (seq![part@] + split_on(cs@.skip(at + 1), c)) =~= views(out@) + split_on(
            cs@.skip(at + 1),
            c,
        ));
        from = at + 1;
    }
}

/// The two sides of the first `c` in `s`.
pub fn split_once(s: &str, c: char) -> (r: Option<(String, String)>)
    ensures
        match r {
            Some((a, b)) => cut_at(s@, c) == Some((a@, b@)),
            None => cut_at(s@, c) is None,
        },
{
    let cs = chars_of(s);
    let at = seek(cs.as_slice(), 0, c);
    assert(cs@.skip(0) =~= cs@);
    if at == cs.len() {
        return None;
    }
    let a = piece(cs.as_slice(), 0, at);
    let b = piece(cs.as_slice(), at + 1, cs.len());
    assert(a@ =~= s@.take(at as int));
    assert(b@ =~= s@.skip(at + 1));
    Some((a, b))
}

/// The lines of `s`.
pub fn lines(s: &str) -> (r: Vec<String>)
    ensures
        views(r@) == lines_of(s@),
{
    let cs = chars_of(s);
    let mut out: Vec<String> = Vec::new();
    let mut from: usize = 0;
    assert(cs@.skip(0) =~= cs@);
    assert(views(out@) + lines_of(cs@) =~= lines_of(cs@));
    while from < cs.len()
        invariant
            cs@ == s@,
            from <= cs@.len(),
            lines_of(s@) == views(out@) + lines_of(cs@.skip(from as int)),
        decreases cs.len() - from,
    {
        let at = seek(cs.as_slice(), from, '\n');
        let ghost rest = cs@.skip(from as int);
        let ghost before = views(out@);
        if at == cs.len() {
            let part = piece(cs.as_slice(), from, at);
            assert(part@ =~= rest);
            out.push(part);
            assert(views(out@) =~= before + seq![rest]);
            return out;
        }
        let to: usize = if at > from && cs[at - 1] == '\r' { at - 1 } else { at };
        let part = piece(cs.as_slice(), from, to);
        assert(part@ =~= without_cr(rest.take(at - from)));
        out.push(part);
        assert(views(out@) =~= before.push(part@));
        assert(rest.skip(at - from + 1) =~= cs@.skip(at + 1));
        assert(before + (seq![part@] + lines_of(cs@.skip(at + 1))) =~= views(out@) + lines_of(
            cs@.skip(at + 1),
        ));
        from = at + 1;
    }
    assert(views(out@) + lines_of(cs@.skip(from as int)) =~= views(out@));
    out
}

/// Whether there is any text.
pub open spec fn not_empty() -> spec_fn(Seq<char>) -> bool {
    |s: Seq<char>| s.len() > 0
}

/// The lines of `s`, each trimmed, without those that are then empty.
pub open spec fn filled_lines(s: Seq<char>) -> Seq<Seq<char>> {
    lines_of(s).map_values(|line: Seq<char>| trimmed(line)).filter(not_empty())
}

/// The lines of `s`, each trimmed, without those that are then empty.
pub fn trimmed_lines(s: &str) -> (r: Vec<String>)
    ensures
        views(r@) == filled_lines(s@),
{
    let all = lines(s);
    let n: usize = all.len();
    let ghost each = lines_of(s@).map_values(|line: Seq<char>| trimmed(line));
    let mut out: Vec<String> = Vec::new();
    proof {
        reveal(Seq::filter);
        assert(views(out@) =~= each.take(0).filter(not_empty()));
    }
    for i in 0..n
        invariant
            n == all@.len(),
            views(all@) == lines_of(s@),
            each == lines_of(s@).map_values(|line: Seq<char>| trimmed(line)),
            views(out@) == each.take(i as int).filter(not_empty()),
    {
        let line = trim(all[i].as_str());
        let ghost before = views(out@);
        proof {
            reveal(Seq::filter);
            assert(views(all@)[i as int] == all@[i as int]@);
            assert(each.take(i + 1).drop_last() =~= each.take(i as int));
            assert(each.take(i + 1).last() == line@);
        }
        if !line.as_str().is_empty() {
            let ghost added = line@;
            out.push(line);
            assert(views(out@) =~= before.push(added));
        }
    }
    assert(each.take(n as int) =~= each);
    out
}

/// The words of `s`.
pub fn words(s: &str) -> (r: Vec<String>)
    ensures
        views(r@) == words_of(s@),
{
    let cs = chars_of(s);
    let total: usize = cs.len();
    let mut out: Vec<String> = Vec::new();
    let mut from: usize = 0;
    let ghost solid = |c: char| !is_space(c);
    let ghost blank = |c: char| is_space(c);
    assert(cs@.skip(0) =~= cs@);
    assert(views(out@) + words_of(cs@) =~= words_of(cs@));
    loop
        invariant
            cs@ == s@,
            total == cs@.len(),
            from <= total,
            solid == |c: char| !is_space(c),
            blank == |c: char| is_space(c),
            words_of(s@) == views(out@) + words_of(cs@.skip(from as int)),
        decreases total - from,
    {
        let ghost rest = cs@.skip(from as int);
        let mut a: usize = from;
        while a < total && space(cs[a])
            invariant
                from <= a <= total == cs@.len(),
                rest == cs@.skip(from as int),
                solid == |c: char| !is_space(c),
                forall|j: int| 0 <= j < a - from ==> !#[trigger] solid(rest[j]),
            decreases total - a,
        {
            assert(rest[a - from] == cs@[a as int]);
            a += 1;
        }
        proof {
            if a < total {
                assert(rest[a - from] == cs@[a as int]);
            }
            lemma_run_len_is(rest, solid, a - from);
        }
        if a == total {
            assert(words_of(rest) =~= seq![]);
            assert(views(out@) + words_of(rest) =~= views(out@));
            return out;
        }
        let ghost tail = rest.skip(a - from);
        assert(tail =~= cs@.skip(a as int));
        let mut b: usize = a;
        while b < total && !space(cs[b])
            invariant
                a <= b <= total == cs@.len(),
                tail == cs@.skip(a as int),
                blank == |c: char| is_space(c),
                forall|j: int| 0 <= j < b - a ==> !#[trigger] blank(tail[j]),
            decreases total - b,
        {
            assert(tail[b - a] == cs@[b as int]);
            b += 1;
        }
        proof {
            if b < total {
                assert(tail[b - a] == cs@[b as int]);
            }
            lemma_run_len_is(tail, blank, b - a);
            assert(tail[0] == cs@[a as int]);
        }
        let part = piece(cs.as_slice(), a, b);
        assert(part@ =~= tail.take(b - a));
        let ghost before = views(out@);
        out.push(part);
        assert(views(out@) =~= before.push(part@));
        assert(tail.skip(b - a) =~= cs@.skip(b as int));
        assert(before + (seq![part@] + words_of(cs@.skip(b as int))) =~= views(out@) + words_of(
            cs@.skip(b as int),
        ));
        from = b;
    }
}

// Joining.

/// One text after another.
pub fn glue(a: &str, b: &str) -> (r: String)
    ensures
        r@ == a@ + b@,
{
    let mut out = a.to_string();
    out.append(b);
    out
}

/// Three texts, one after another.
pub fn glue3(a: &str, b: &str, c: &str) -> (r: String)
    ensures
        r@ == a@ + b@ + c@,
{
    let mut out = a.to_string();
    out.append(b);
    out.append(c);
    out
}

/// The parts, one after another, with `sep` between them.
pub open spec fn joined(parts: Seq<Seq<char>>, sep: Seq<char>) -> Seq<char>
    decreases parts.len(),
{
    if parts.len() == 0 {
        seq![]
    } else if parts.len() == 1 {
        parts[0]
    } else {
        joined(parts.drop_last(), sep) + sep + parts.last()
    }
}

/// The parts, one after another, with `sep` between them.
pub fn join(parts: &[String], sep: &str) -> (r: String)
    ensures
        r@ == joined(views(parts@), sep@),
{
    let mut out = String::new();
    let n: usize = parts.len();
    for i in 0..n
        invariant
            n == parts@.len(),
            out@ == joined(views(parts@.take(i as int)), sep@),
    {
        if i > 0 {
            out.append(sep);
        }
        out.append(parts[i].as_str());
        proof {
            let now = views(parts@.take(i + 1));
            assert(now.drop_last() =~= views(parts@.take(i as int)));
            assert(now.last() == parts@[i as int]@);
        }
    }
    assert(parts@.take(n as int) =~= parts@);
    out
}

/// The order of the characters' code points, first difference first; a proper prefix comes
/// before what it is a prefix of.
pub open spec fn before(a: Seq<char>, b: Seq<char>) -> bool
    decreases a.len(),
{
    if b.len() == 0 {
        false
    } else if a.len() == 0 {
        true
    } else if a[0] != b[0] {
        a[0] < b[0]
    } else {
        before(a.skip(1), b.skip(1))
    }
}

/// Whether `a` comes before `b`.
pub fn precedes(a: &str, b: &str) -> (r: bool)
    ensures
        r == before(a@, b@),
{
    let x = chars_of(a);
    let y = chars_of(b);
    let mut i: usize = 0;
    assert(x@.skip(0) =~= x@);
    assert(y@.skip(0) =~= y@);
    while i < x.len() && i < y.len() && x[i] == y[i]
        invariant
            i <= x@.len(),
            i <= y@.len(),
            before(x@, y@) == before(x@.skip(i as int), y@.skip(i as int)),
        decreases x.len() - i,
    {
        assert(x@.skip(i as int).skip(1) =~= x@.skip(i + 1));
        assert(y@.skip(i as int).skip(1) =~= y@.skip(i + 1));
        i += 1;
    }
    if i >= y.len() {
        return false;
    }
    if i >= x.len() {
        return true;
    }
    x[i] < y[i]
}

/// No text comes before itself.
pub proof fn lemma_before_irreflexive(a: Seq<char>)
    ensures
        !before(a, a),
    decreases a.len(),
{
    if a.len() > 0 {
        lemma_before_irreflexive(a.skip(1));
    }
}

/// Of two different texts one comes before the other.
pub proof fn lemma_before_total(a: Seq<char>, b: Seq<char>)
    ensures
        a == b || before(a, b) || before(b, a),
    decreases a.len(),
{
    if a.len() == 0 || b.len() == 0 {
        assert(a.len() == 0 && b.len() == 0 ==> a =~= b);
    } else if a[0] == b[0] {
        lemma_before_total(a.skip(1), b.skip(1));
        if a.skip(1) == b.skip(1) {
            assert(a =~= seq![a[0]] + a.skip(1));
            assert(b =~= seq![b[0]] + b.skip(1));
        }
    }
}

/// The order is transitive.
pub proof fn lemma_before_transitive(a: Seq<char>, b: Seq<char>, c: Seq<char>)
    requires
        before(a, b),
        before(b, c),
    ensures
        before(a, c),
    decreases a.len(),
{
    if a.len() > 0 && b.len() > 0 && c.len() > 0 && a[0] == b[0] && b[0] == c[0] {
        lemma_before_transitive(a.skip(1), b.skip(1), c.skip(1));
    }
}

/// Appends the strings of `more` to `list`.
pub fn extend(list: &mut Vec<String>, more: &[String])
    ensures
        views(final(list)@) == views(old(list)@) + views(more@),
{
    let n: usize = more.len();
    let ghost start = views(list@);
    assert(views(more@).take(0) =~= seq![]);
    assert(start + views(more@).take(0) =~= start);
    for i in 0..n
        invariant
            n == more@.len(),
            start == views(old(list)@),
            views(list@) == start + views(more@).take(i as int),
    {
        let ghost before = views(list@);
        list.push(more[i].clone());
        assert(views(list@) =~= before.push(more@[i as int]@));
        assert(views(more@).take(i + 1) =~= views(more@).take(i as int).push(more@[i as int]@));
    }
    assert(views(more@).take(n as int) =~= views(more@));
}

// Searching.

/// The first value that is there.
pub open spec fn first_some<A>(s: Seq<Option<A>>) -> Option<A>
    decreases s.len(),
{
    if s.len() == 0 {
        None
    } else if s[0] is Some {
        s[0]
    } else {
        first_some(s.skip(1))
    }
}

pub proof fn lemma_first_some<A>(s: Seq<Option<A>>, n: int)
    requires
        0 <= n <= s.len(),
        forall|i: int| 0 <= i < n ==> (#[trigger] s[i]) is None,
        n == s.len() || s[n] is Some,
    ensures
        first_some(s) == if n == s.len() {
            None
        } else {
            s[n]
        },
    decreases s.len(),
{
    if n > 0 {
        assert(s[0] is None);
        assert forall|i: int| 0 <= i < n - 1 implies (#[trigger] s.skip(1)[i]) is None by {
            assert(s.skip(1)[i] == s[i + 1]);
        }
        lemma_first_some(s.skip(1), n - 1);
    }
}

/// A value that is there and not empty.
pub open spec fn filled(value: Option<Seq<char>>) -> Option<Seq<char>> {
    match value {
        Some(text) => if text.len() > 0 {
            Some(text)
        } else {
            None
        },
        None => None,
    }
}

/// A value that is there and not empty.
pub fn if_filled(value: Option<String>) -> (r: Option<String>)
    ensures
        view_opt(r) == filled(view_opt(value)),
{
    match value {
        Some(text) => if text.as_str().is_empty() {
            None
        } else {
            Some(text)
        },
        None => None,
    }
}

/// The first of three values that is there and not empty.
pub fn first_filled(a: Option<String>, b: Option<String>, c: Option<String>) -> (r: Option<String>)
    ensures
        view_opt(r) == first_some(
            seq![filled(view_opt(a)), filled(view_opt(b)), filled(view_opt(c))],
        ),
{
    let ghost all = seq![filled(view_opt(a)), filled(view_opt(b)), filled(view_opt(c))];
    if let Some(value) = if_filled(a) {
        proof {
            lemma_first_some(all, 0);
        }
        return Some(value);
    }
    if let Some(value) = if_filled(b) {
        proof {
            lemma_first_some(all, 1);
        }
        return Some(value);
    }
    let last = if_filled(c);
    proof {
        lemma_first_some(
            all,
            if last is Some {
                2
            } else {
                3
            },
        );
    }
    last
}

// What the texts come to.

/// Where two texts first differ, the one with the lower character comes first; the beginning of a
/// text comes before the whole.
pub proof fn law_order_is_by_character(
    start: Seq<char>,
    a: char,
    b: char,
    x: Seq<char>,
    y: Seq<char>,
)
    ensures
        a < b ==> before(start + seq![a] + x, start + seq![b] + y) && !before(
            start + seq![b] + y,
            start + seq![a] + x,
        ),
        before(start, start + seq![a] + x),
        !before(start + seq![a] + x, start),
    decreases start.len(),
{
    if start.len() > 0 {
        law_order_is_by_character(start.skip(1), a, b, x, y);
        assert((start + seq![a] + x).skip(1) =~= start.skip(1) + seq![a] + x);
        assert((start + seq![b] + y).skip(1) =~= start.skip(1) + seq![b] + y);
        assert((start + seq![a] + x)[0] == start[0]);
        assert((start + seq![b] + y)[0] == start[0]);
    } else {
        assert((start + seq![a] + x)[0] == a);
        assert((start + seq![b] + y)[0] == b);
    }
}

/// Whether a text is all white space.
pub open spec fn blank(s: Seq<char>) -> bool {
    forall|i: int| 0 <= i < s.len() ==> is_space(#[trigger] s[i])
}

proof fn lemma_drop_start(s: Seq<char>, drop: spec_fn(char) -> bool) -> (n: int)
    ensures
        0 <= n <= s.len(),
        drop_start(s, drop) == s.skip(n),
        forall|i: int| 0 <= i < n ==> drop(#[trigger] s[i]),
        n < s.len() ==> !drop(s[n]),
    decreases s.len(),
{
    if s.len() > 0 && drop(s[0]) {
        let m = lemma_drop_start(s.skip(1), drop);
        assert(s.skip(1).skip(m) =~= s.skip(m + 1));
        assert forall|i: int| 0 <= i < m + 1 implies drop(#[trigger] s[i]) by {
            if i > 0 {
                assert(s.skip(1)[i - 1] == s[i]);
            }
        }
        if m + 1 < s.len() {
            assert(s.skip(1)[m] == s[m + 1]);
        }
        m + 1
    } else {
        assert(s.skip(0) =~= s);
        0
    }
}

proof fn lemma_drop_end(s: Seq<char>, drop: spec_fn(char) -> bool) -> (n: int)
    ensures
        0 <= n <= s.len(),
        drop_end(s, drop) == s.take(n),
        forall|i: int| n <= i < s.len() ==> drop(#[trigger] s[i]),
        n > 0 ==> !drop(s[n - 1]),
    decreases s.len(),
{
    if s.len() > 0 && drop(s.last()) {
        let m = lemma_drop_end(s.drop_last(), drop);
        assert(s.drop_last().take(m) =~= s.take(m));
        assert forall|i: int| m <= i < s.len() implies drop(#[trigger] s[i]) by {
            if i < s.len() - 1 {
                assert(s.drop_last()[i] == s[i]);
            }
        }
        if m > 0 {
            assert(s.drop_last()[m - 1] == s[m - 1]);
        }
        m
    } else {
        assert(s.take(s.len() as int) =~= s);
        s.len() as int
    }
}

/// Trimming takes white space from both ends and nothing else, and leaves none there.
pub proof fn law_trimming_takes_white_space(s: Seq<char>)
    ensures
        exists|a: Seq<char>, b: Seq<char>|
            blank(a) && blank(b) && s == #[trigger] (a + trimmed(s) + b),
        trimmed(s).len() > 0 ==> !is_space(trimmed(s)[0]) && !is_space(trimmed(s).last()),
{
    let space = |c: char| is_space(c);
    let n = lemma_drop_start(s, space);
    let t = s.skip(n);
    let m = lemma_drop_end(t, space);
    let a = s.take(n);
    let b = t.skip(m);
    assert(trimmed(s) == t.take(m));
    assert forall|i: int| 0 <= i < b.len() implies is_space(#[trigger] b[i]) by {
        assert(b[i] == t[m + i]);
        assert(space(t[m + i]));
    }
    assert forall|i: int| 0 <= i < a.len() implies is_space(#[trigger] a[i]) by {
        assert(a[i] == s[i]);
        assert(space(s[i]));
    }
    assert(s =~= a + trimmed(s) + b);
    if m > 0 {
        assert(!space(t[m - 1]));
        assert(t[0] == s[n]);
        assert(!space(s[n]));
    }
}

/// A text up to a line feed is a line, without a carriage return at its end; what follows the line
/// feed has the other lines.
pub proof fn law_lines_end_at_line_feeds(line: Seq<char>, rest: Seq<char>)
    requires
        !line.contains('\n'),
    ensures
        lines_of(line + seq!['\n'] + rest) == seq![
            if line.len() > 0 && line.last() == '\r' {
                line.drop_last()
            } else {
                line
            },
        ] + lines_of(rest),
        line.len() > 0 ==> lines_of(line) == seq![line],
        lines_of(seq![]) == Seq::<Seq<char>>::empty(),
{
    let all = line + seq!['\n'] + rest;
    let n = line.len() as int;
    assert forall|i: int| 0 <= i < n implies !#[trigger] only('\n')(all[i]) by {
        assert(all[i] == line[i]);
        assert(line.contains(line[i]));
    }
    assert(all[n] == '\n');
    lemma_run_len_is(all, only('\n'), n);
    assert(all.take(n) =~= line);
    assert(all.skip(n + 1) =~= rest);
    assert forall|i: int| 0 <= i < n implies !#[trigger] only('\n')(line[i]) by {
        assert(line.contains(line[i]));
    }
    lemma_run_len_is(line, only('\n'), n);
}

/// A text up to a separator is a part; what follows the separator has the other parts.
pub proof fn law_parts_end_at_separators(part: Seq<char>, c: char, rest: Seq<char>)
    requires
        !part.contains(c),
    ensures
        split_on(part + seq![c] + rest, c) == seq![part] + split_on(rest, c),
        split_on(part, c) == seq![part],
        cut_at(part + seq![c] + rest, c) == Some((part, rest)),
        cut_at(part, c) is None,
{
    let all = part + seq![c] + rest;
    let n = part.len() as int;
    assert forall|i: int| 0 <= i < n implies !#[trigger] only(c)(all[i]) by {
        assert(all[i] == part[i]);
        assert(part.contains(part[i]));
    }
    assert(all[n] == c);
    lemma_run_len_is(all, only(c), n);
    assert(all.take(n) =~= part);
    assert(all.skip(n + 1) =~= rest);
    assert forall|i: int| 0 <= i < n implies !#[trigger] only(c)(part[i]) by {
        assert(part.contains(part[i]));
    }
    lemma_run_len_is(part, only(c), n);
}

/// Parts are joined in order, with the separator between any two.
pub proof fn law_joined_parts_stand_between_separators(
    first: Seq<char>,
    rest: Seq<Seq<char>>,
    sep: Seq<char>,
)
    ensures
        joined(seq![first] + rest, sep) == if rest.len() == 0 {
            first
        } else {
            first + sep + joined(rest, sep)
        },
        joined(seq![], sep).len() == 0,
    decreases rest.len(),
{
    let all = seq![first] + rest;
    if rest.len() == 1 {
        assert(all.drop_last() =~= seq![first]);
        assert(joined(seq![first], sep) == first);
        assert(all.last() == rest[0]);
    } else if rest.len() > 1 {
        let shorter = rest.drop_last();
        law_joined_parts_stand_between_separators(first, shorter, sep);
        assert(all.drop_last() =~= seq![first] + shorter);
        assert(joined(all, sep) =~= first + sep + (joined(shorter, sep) + sep + rest.last()));
    } else {
        assert(all =~= seq![first]);
    }
}

/// A word is what stands between white space; a text without white space is one word.
pub proof fn law_words_have_no_white_space(word: Seq<char>, space: char, rest: Seq<char>)
    requires
        word.len() > 0,
        forall|i: int| 0 <= i < word.len() ==> !is_space(#[trigger] word[i]),
        is_space(space),
    ensures
        words_of(word) == seq![word],
        words_of(word + seq![space] + rest) == seq![word] + words_of(seq![space] + rest),
        words_of(seq![space] + rest) == words_of(rest),
{
    let filled = |c: char| !is_space(c);
    let empty = |c: char| is_space(c);
    lemma_run_len_is(word, filled, 0);
    assert(!is_space(word[0]));
    assert(word.skip(0) =~= word);
    lemma_run_len_is(word, empty, word.len() as int);
    assert(word.take(word.len() as int) =~= word);
    assert(word.skip(word.len() as int) =~= seq![]);
    assert(words_of(Seq::<char>::empty()) =~= seq![]);
    let all = word + seq![space] + rest;
    assert(all[0] == word[0]);
    lemma_run_len_is(all, filled, 0);
    assert(all.skip(0) =~= all);
    assert forall|i: int| 0 <= i < word.len() implies !#[trigger] empty(all[i]) by {
        assert(all[i] == word[i]);
    }
    assert(all[word.len() as int] == space);
    lemma_run_len_is(all, empty, word.len() as int);
    assert(all.take(word.len() as int) =~= word);
    assert(all.skip(word.len() as int) =~= seq![space] + rest);
    // Leading white space.
    let tail = seq![space] + rest;
    let gap = run_len(rest, filled) as int;
    assert(tail.skip(1) =~= rest);
    assert(run_len(tail, filled) == 1 + gap);
    lemma_run_len(rest, filled);
    if gap < rest.len() {
        assert(tail.skip(gap + 1) =~= rest.skip(gap));
    }
}

// Helpers in writing.

/// What begins with a text is the text and the rest; what ends with it is the rest and the text.
pub proof fn law_prefixes_and_suffixes_are_parts(
    s: &str,
    p: &str,
    rest: Seq<char>,
    starts: bool,
    ends: bool,
    behind: Option<String>,
    ahead: Option<String>,
)
    requires
        call_ensures(starts_with, (s, p), starts),
        call_ensures(ends_with, (s, p), ends),
        call_ensures(strip_prefix, (s, p), behind),
        call_ensures(strip_suffix, (s, p), ahead),
    ensures
        s@ == p@ + rest ==> starts && behind is Some && behind->0@ == rest,
        s@ == rest + p@ ==> ends && ahead is Some && ahead->0@ == rest,
        starts <==> behind is Some,
        ends <==> ahead is Some,
        behind matches Some(text) ==> s@ == p@ + text@,
        ahead matches Some(text) ==> s@ == text@ + p@,
{
    if s@ == p@ + rest {
        assert(s@.take(p@.len() as int) =~= p@);
        assert(s@.skip(p@.len() as int) =~= rest);
    }
    if s@ == rest + p@ {
        assert(s@.skip(s@.len() - p@.len()) =~= p@);
        assert(s@.take(s@.len() - p@.len()) =~= rest);
    }
    if let Some(text) = behind {
        assert(s@ =~= p@ + text@);
    }
    if let Some(text) = ahead {
        assert(s@ =~= text@ + p@);
    }
}

/// A text is found where it first stands.
pub proof fn law_texts_are_found_where_they_stand(
    s: &str,
    needle: &str,
    a: Seq<char>,
    b: Seq<char>,
    found: bool,
    at: Option<usize>,
)
    requires
        call_ensures(contains, (s, needle), found),
        call_ensures(find, (s, needle), at),
    ensures
        s@ == a + needle@ + b ==> found && at is Some && at->0 <= a.len(),
        found <==> at is Some,
        at matches Some(n) ==> n + needle@.len() <= s@.len() && s@ == s@.take(n as int) + needle@
            + s@.skip(n + needle@.len()),
{
    if s@ == a + needle@ + b {
        let n = a.len() as int;
        assert(s@.subrange(n, n + needle@.len()) =~= needle@);
        assert(occurs_at(s@, needle@, n));
    }
    if let Some(n) = at {
        assert(occurs_at(s@, needle@, n as int));
        assert(s@ =~= s@.take(n as int) + needle@ + s@.skip(n + needle@.len()));
    }
}

/// The first of three values that is there and not empty counts.
pub proof fn law_empty_values_count_as_none(
    a: Option<String>,
    b: Option<String>,
    c: Option<String>,
    r: Option<String>,
    own: Option<String>,
)
    requires
        call_ensures(first_filled, (a, b, c), r),
        call_ensures(if_filled, (a,), own),
    ensures
        ({
            let one = a is Some && a->0@.len() > 0;
            let two = b is Some && b->0@.len() > 0;
            let three = c is Some && c->0@.len() > 0;
            &&& one ==> r is Some && r->0@ == a->0@ && own is Some && own->0@ == a->0@
            &&& !one ==> own is None
            &&& !one && two ==> r is Some && r->0@ == b->0@
            &&& !one && !two && three ==> r is Some && r->0@ == c->0@
            &&& !one && !two && !three ==> r is None
        }),
{
    let list = seq![filled(view_opt(a)), filled(view_opt(b)), filled(view_opt(c))];
    reveal_with_fuel(first_some, 4);
    assert(list.skip(1)[0] == list[1]);
    assert(list.skip(1).skip(1)[0] == list[2]);
    assert(list.skip(1).skip(1).skip(1).len() == 0);
}

/// Letters and digits are those of ASCII, and white space is that of Unicode.
pub proof fn law_characters_have_kinds(c: char, plain: bool, number: bool, blank: bool)
    requires
        call_ensures(alnum, (c,), plain),
        call_ensures(hex, (c,), number),
        call_ensures(space, (c,), blank),
    ensures
        plain <==> 'a' <= c <= 'z' || 'A' <= c <= 'Z' || '0' <= c <= '9',
        number <==> 'a' <= c <= 'f' || 'A' <= c <= 'F' || '0' <= c <= '9',
        blank <==> c == ' ' || '\t' <= c <= '\r' || c == '\u{85}' || c == '\u{a0}' || c == '\u{1680}'
            || '\u{2000}' <= c <= '\u{200a}' || c == '\u{2028}' || c == '\u{2029}' || c == '\u{202f}'
            || c == '\u{205f}' || c == '\u{3000}',
{
}

/// A repeated prefix or suffix is taken away altogether, and nothing else is.
pub proof fn law_repeated_ends_are_taken_away(
    s: &str,
    p: &str,
    front: String,
    back: String,
    rest: Seq<char>,
)
    requires
        call_ensures(strip_prefixes, (s, p), front),
        call_ensures(strip_suffixes, (s, p), back),
        p@.len() > 0,
    ensures
        !has_prefix(rest, p@) && (s@ == rest || s@ == p@ + rest || s@ == p@ + (p@ + rest))
            ==> front@ == rest,
        !has_suffix(rest, p@) && (s@ == rest || s@ == rest + p@ || s@ == rest + p@ + p@) ==> back@
            == rest,
{
    reveal_with_fuel(without_prefixes, 3);
    reveal_with_fuel(without_suffixes, 3);
    let p = p@;
    let one = p + rest;
    assert(one.take(p.len() as int) =~= p);
    assert(one.skip(p.len() as int) =~= rest);
    let two = p + one;
    assert(two.take(p.len() as int) =~= p);
    assert(two.skip(p.len() as int) =~= one);
    let a = rest + p;
    assert(a.skip(a.len() - p.len()) =~= p);
    assert(a.take(a.len() - p.len()) =~= rest);
    let b = a + p;
    assert(b.skip(b.len() - p.len()) =~= p);
    assert(b.take(b.len() - p.len()) =~= a);
}

/// Texts are put together in order, and a list that is longer has the rest behind what it had.
pub proof fn law_texts_are_put_together_in_order(
    a: &str,
    b: &str,
    c: &str,
    two: String,
    three: String,
    list: &mut Vec<String>,
    more: &[String],
    i: int,
)
    requires
        call_ensures(glue, (a, b), two),
        call_ensures(glue3, (a, b, c), three),
        call_ensures(extend, (list, more), ()),
    ensures
        two@ == a@ + b@,
        three@ == a@ + b@ + c@,
        final(list)@.len() == old(list)@.len() + more@.len(),
        0 <= i < old(list)@.len() ==> final(list)@[i]@ == old(list)@[i]@,
        0 <= i < more@.len() ==> final(list)@[old(list)@.len() + i]@ == more@[i]@,
{
    let was = views(list@);
    let now = views(final(list)@);
    assert(now == was + views(more@));
    assert(now.len() == final(list)@.len());
    if 0 <= i < list@.len() {
        assert(now[i] == was[i]);
    }
    if 0 <= i < more@.len() {
        assert(now[was.len() + i] == views(more@)[i]);
    }
}

/// The lines of a text are taken without white space around them, and blank ones not at all.
pub proof fn law_blank_lines_do_not_count(s: &str, r: Vec<String>, line: Seq<char>, rest: Seq<char>)
    requires
        call_ensures(trimmed_lines, (s,), r),
        s@ == line + seq!['\n'] + rest,
        !line.contains('\n'),
        line.len() == 0 || line.last() != '\r',
    ensures
        trimmed(line).len() > 0 ==> views(r@) == seq![trimmed(line)] + filled_lines(rest),
        trimmed(line).len() == 0 ==> views(r@) == filled_lines(rest),
{
    law_lines_end_at_line_feeds(line, rest);
    let f = |line: Seq<char>| trimmed(line);
    let all = lines_of(s@).map_values(f);
    let more = lines_of(rest).map_values(f);
    assert(all =~= seq![trimmed(line)] + more);
    lemma_filter_first(trimmed(line), more);
}

proof fn lemma_filter_first(first: Seq<char>, rest: Seq<Seq<char>>)
    ensures
        (seq![first] + rest).filter(not_empty()) == if first.len() > 0 {
            seq![first] + rest.filter(not_empty())
        } else {
            rest.filter(not_empty())
        },
    decreases rest.len(),
{
    reveal(Seq::filter);
    let all = seq![first] + rest;
    if rest.len() == 0 {
        assert(all.drop_last() =~= seq![]);
        assert(all.drop_last().filter(not_empty()) =~= seq![]);
        assert(rest.filter(not_empty()) =~= seq![]);
        assert(all.last() == first);
        assert(all.filter(not_empty()) =~= if first.len() > 0 {
            seq![first] + rest.filter(not_empty())
        } else {
            rest.filter(not_empty())
        });
    } else {
        lemma_filter_first(first, rest.drop_last());
        assert(all.drop_last() =~= seq![first] + rest.drop_last());
        assert(all.last() == rest.last());
        assert(all.filter(not_empty()) =~= if first.len() > 0 {
            seq![first] + rest.filter(not_empty())
        } else {
            rest.filter(not_empty())
        });
    }
}

} // verus!
