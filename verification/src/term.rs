//! What the terminal can show.

use crate::cli::ColorMode;
use crate::text::{
    contains, filled, first_filled, first_some, has_part, has_prefix, occurs_at, same, strip_prefix,
    view_opt, views, without_prefix,
};
use crate::ui::Settings;
use vstd::prelude::*;

verus! {

// When colors are shown.

/// The color mode of a name.
pub open spec fn mode_of(name: Seq<char>) -> Option<ColorMode> {
    if name == "auto"@ {
        Some(ColorMode::Auto)
    } else if name == "always"@ {
        Some(ColorMode::Always)
    } else if name == "never"@ {
        Some(ColorMode::Never)
    } else {
        None
    }
}

fn mode_named(name: &str) -> (r: Option<ColorMode>)
    ensures
        r == mode_of(name@),
{
    if same(name, "auto") {
        Some(ColorMode::Auto)
    } else if same(name, "always") {
        Some(ColorMode::Always)
    } else if same(name, "never") {
        Some(ColorMode::Never)
    } else {
        None
    }
}

/// The color mode that an argument names, behind the option or as part of it.
pub open spec fn mode_given(arg: Seq<char>, behind: bool) -> Option<ColorMode> {
    if behind {
        mode_of(arg)
    } else {
        match without_prefix(arg, "--color="@) {
            Some(name) => mode_of(name),
            None => None,
        }
    }
}

/// The color mode that arguments leave of `mode`: the last one that is named before `--`.
pub open spec fn mode_after(args: Seq<Seq<char>>, behind: bool, mode: ColorMode) -> ColorMode
    decreases args.len(),
{
    if args.len() == 0 || args[0] == "--"@ {
        mode
    } else {
        mode_after(
            args.skip(1),
            args[0] == "--color"@,
            match mode_given(args[0], behind) {
                Some(given) => given,
                None => mode,
            },
        )
    }
}

/// The color mode that arguments name before they are parsed; the first is the program.
pub fn mode_from_args(args: &[String]) -> (r: ColorMode)
    ensures
        r == if args@.len() == 0 {
            ColorMode::Auto
        } else {
            mode_after(views(args@).skip(1), false, ColorMode::Auto)
        },
{
    if args.len() == 0 {
        return ColorMode::Auto;
    }
    let mut mode = ColorMode::Auto;
    let mut behind = false;
    let mut i: usize = 1;
    let ghost all = views(args@);
    while i < args.len()
        invariant
            1 <= i <= args@.len(),
            all == views(args@),
            mode_after(all.skip(1), false, ColorMode::Auto) == mode_after(
                all.skip(i as int),
                behind,
                mode,
            ),
        decreases args@.len() - i,
    {
        let arg = args[i].as_str();
        assert(arg@ == all.skip(i as int)[0]);
        assert(all.skip(i as int).skip(1) =~= all.skip(i + 1));
        if same(arg, "--") {
            return mode;
        }
        let given = if behind {
            mode_named(arg)
        } else {
            match strip_prefix(arg, "--color=") {
                Some(name) => mode_named(name.as_str()),
                None => None,
            }
        };
        if let Some(given) = given {
            mode = given;
        }
        behind = same(arg, "--color");
        i += 1;
    }
    mode
}

/// Whether colors are shown: as asked, or else on a terminal where nothing speaks against them.
pub open spec fn is_colored(mode: ColorMode, terminal: bool, no_color: bool) -> bool {
    match mode {
        ColorMode::Always => true,
        ColorMode::Never => false,
        ColorMode::Auto => terminal && !no_color,
    }
}

fn colored(mode: ColorMode, terminal: bool, no_color: bool) -> (r: bool)
    ensures
        r == is_colored(mode, terminal, no_color),
{
    match mode {
        ColorMode::Always => true,
        ColorMode::Never => false,
        ColorMode::Auto => terminal && !no_color,
    }
}

// Which characters are shown.

/// A letter of the name of UTF-8 in lower case.
pub open spec fn small(c: char) -> char {
    match c {
        'U' => 'u',
        'T' => 't',
        'F' => 'f',
        _ => c,
    }
}

/// The name of a locale without hyphens, where UTF-8 is in lower case.
pub open spec fn folded(name: Seq<char>) -> Seq<char>
    decreases name.len(),
{
    if name.len() == 0 {
        seq![]
    } else if name.last() == '-' {
        folded(name.drop_last())
    } else {
        folded(name.drop_last()).push(small(name.last()))
    }
}

fn fold(name: &str) -> (r: String)
    ensures
        r@ == folded(name@),
{
    let mut out = String::new();
    assert(out@ =~= folded(name@.take(0)));
    for c in it: name.chars()
        invariant
            it.seq() == name@,
            out@ == folded(name@.take(it.index())),
    {
        assert(name@.take(it.index() + 1).drop_last() =~= name@.take(it.index()));
        let low = match c {
            'U' => 'u',
            'T' => 't',
            'F' => 'f',
            _ => c,
        };
        if c != '-' {
            out.push(low);
        }
    }
    assert(name@.take(name@.len() as int) =~= name@);
    out
}

/// Whether a locale has Unicode; where none is set, it does.
pub open spec fn has_unicode(locale: Option<Seq<char>>) -> bool {
    match locale {
        Some(name) => has_part(folded(name), "utf8"@),
        None => true,
    }
}

/// What the terminal can show: colors by the mode, by whether the outputs are terminals and by
/// whether colors are unwanted; Unicode by the first locale that is set, of the one for all, the
/// one for characters and the language.
pub fn settings(
    mode: ColorMode,
    stdout: bool,
    stderr: bool,
    no_color: bool,
    all: Option<String>,
    ctype: Option<String>,
    lang: Option<String>,
) -> (r: Settings)
    ensures
        r.stdout == is_colored(mode, stdout, no_color),
        r.stderr == is_colored(mode, stderr, no_color),
        r.unicode == has_unicode(
            first_some(
                seq![filled(view_opt(all)), filled(view_opt(ctype)), filled(view_opt(lang))],
            ),
        ),
{
    let unicode = match first_filled(all, ctype, lang) {
        Some(name) => contains(fold(name.as_str()).as_str(), "utf8"),
        None => true,
    };
    Settings {
        stdout: colored(mode, stdout, no_color),
        stderr: colored(mode, stderr, no_color),
        unicode,
    }
}

// Arguments and locales in writing.

/// The last mode that is named before `--` counts: as part of the option or behind it.
pub proof fn law_the_last_color_mode_counts(
    args: &[String],
    shorter: &[String],
    r: ColorMode,
    prior: ColorMode,
)
    requires
        call_ensures(mode_from_args, (args,), r),
        call_ensures(mode_from_args, (shorter,), prior),
        args@.len() > 1,
        views(shorter@) == views(args@).drop_last(),
        forall|i: int| 0 < i < args@.len() - 1 ==> (#[trigger] args@[i])@ != "--"@,
    ensures
        ({
            let last = args@[args@.len() - 1]@;
            let behind = args@.len() > 2 && args@[args@.len() - 2]@ == "--color"@;
            &&& !behind && last == "--color=auto"@ ==> r is Auto
            &&& !behind && last == "--color=always"@ ==> r is Always
            &&& !behind && last == "--color=never"@ ==> r is Never
            &&& behind && last == "auto"@ ==> r is Auto
            &&& behind && last == "always"@ ==> r is Always
            &&& behind && last == "never"@ ==> r is Never
            &&& !behind && !has_prefix(last, "--color="@) ==> r == prior
            &&& behind && last != "auto"@ && last != "always"@ && last != "never"@ ==> r == prior
        }),
{
    let all = views(args@).skip(1);
    let last = args@[args@.len() - 1]@;
    assert(all.last() == last);
    assert(views(shorter@).len() == args@.len() - 1);
    assert(views(shorter@).skip(1) =~= all.drop_last());
    assert forall|i: int| 0 <= i < all.len() - 1 implies #[trigger] all[i] != "--"@ by {
        assert(args@[i + 1]@ != "--"@);
        assert(all[i] == args@[i + 1]@);
    }
    if all.len() > 1 {
        assert(all[all.len() - 2] == args@[args@.len() - 2]@);
    }
    lemma_mode_after(all, false, ColorMode::Auto);
    lemma_mode_options(last);
}

/// The last argument has the last word.
proof fn lemma_mode_after(args: Seq<Seq<char>>, behind: bool, mode: ColorMode)
    requires
        args.len() > 0,
        forall|i: int| 0 <= i < args.len() - 1 ==> #[trigger] args[i] != "--"@,
    ensures
        ({
            let prior = mode_after(args.drop_last(), behind, mode);
            let now = if args.len() > 1 {
                args[args.len() - 2] == "--color"@
            } else {
                behind
            };
            mode_after(args, behind, mode) == if args.last() == "--"@ {
                prior
            } else {
                match mode_given(args.last(), now) {
                    Some(given) => given,
                    None => prior,
                }
            }
        }),
    decreases args.len(),
{
    if args.len() == 1 {
        reveal_with_fuel(mode_after, 2);
        assert(args.drop_last().len() == 0);
        assert(args.skip(1).len() == 0);
    } else {
        let rest = args.skip(1);
        let next = match mode_given(args[0], behind) {
            Some(given) => given,
            None => mode,
        };
        assert forall|i: int| 0 <= i < rest.len() - 1 implies #[trigger] rest[i] != "--"@ by {
            assert(rest[i] == args[i + 1]);
        }
        lemma_mode_after(rest, args[0] == "--color"@, next);
        assert(args.drop_last().skip(1) =~= rest.drop_last());
        assert(args.drop_last()[0] == args[0]);
        assert(rest.last() == args.last());
        if rest.len() > 1 {
            assert(rest[rest.len() - 2] == args[args.len() - 2]);
        }
    }
}

/// The options that name a mode.
proof fn lemma_mode_options(arg: Seq<char>)
    ensures
        arg == "--color=auto"@ ==> mode_given(arg, false) == Some(ColorMode::Auto),
        arg == "--color=always"@ ==> mode_given(arg, false) == Some(ColorMode::Always),
        arg == "--color=never"@ ==> mode_given(arg, false) == Some(ColorMode::Never),
        arg == "auto"@ ==> mode_given(arg, true) == Some(ColorMode::Auto),
        arg == "always"@ ==> mode_given(arg, true) == Some(ColorMode::Always),
        arg == "never"@ ==> mode_given(arg, true) == Some(ColorMode::Never),
        arg == "--"@ ==> arg != "auto"@ && arg != "always"@ && arg != "never"@ && !has_prefix(
            arg,
            "--color="@,
        ),
        has_prefix(arg, "--color="@) ==> arg != "--"@,
{
    reveal_strlit("--");
    reveal_strlit("--color=");
    reveal_strlit("auto");
    reveal_strlit("always");
    reveal_strlit("never");
    reveal_strlit("--color=auto");
    reveal_strlit("--color=always");
    reveal_strlit("--color=never");
    assert("--"@.len() == 2 && "auto"@.len() == 4 && "always"@.len() == 6 && "never"@.len() == 5);
    assert("--color="@.len() == 8);
    assert("--color=auto"@.take(8) =~= "--color="@);
    assert("--color=auto"@.skip(8) =~= "auto"@);
    assert("--color=always"@.take(8) =~= "--color="@);
    assert("--color=always"@.skip(8) =~= "always"@);
    assert("--color=never"@.take(8) =~= "--color="@);
    assert("--color=never"@.skip(8) =~= "never"@);
}

/// What stands behind `--` names no mode, and neither does the program.
pub proof fn law_arguments_of_others_name_no_mode(
    args: &[String],
    shorter: &[String],
    r: ColorMode,
    prior: ColorMode,
    rest: Seq<Seq<char>>,
)
    requires
        call_ensures(mode_from_args, (args,), r),
        call_ensures(mode_from_args, (shorter,), prior),
        shorter@.len() > 0,
        views(args@) == views(shorter@) + seq!["--"@] + rest,
    ensures
        r == prior,
        shorter@.len() == 1 ==> r is Auto,
{
    let a = views(shorter@).skip(1);
    assert(views(args@).len() == args@.len());
    assert(views(args@).skip(1) =~= a + seq!["--"@] + rest);
    lemma_mode_ends(a, rest, false, ColorMode::Auto);
    if shorter@.len() == 1 {
        assert(a.len() == 0);
    }
}

proof fn lemma_mode_ends(
    args: Seq<Seq<char>>,
    rest: Seq<Seq<char>>,
    behind: bool,
    mode: ColorMode,
)
    ensures
        mode_after(args + seq!["--"@] + rest, behind, mode) == mode_after(args, behind, mode),
    decreases args.len(),
{
    let all = args + seq!["--"@] + rest;
    if args.len() == 0 {
        assert(all[0] == "--"@);
    } else {
        assert(all[0] == args[0]);
        assert(all.skip(1) =~= args.skip(1) + seq!["--"@] + rest);
        let next = match mode_given(args[0], behind) {
            Some(given) => given,
            None => mode,
        };
        lemma_mode_ends(args.skip(1), rest, args[0] == "--color"@, next);
    }
}

/// Colors are shown always or never where that is asked for, and else on a terminal that does not
/// refuse them.
pub proof fn law_colors_are_for_terminals(
    mode: ColorMode,
    stdout: bool,
    stderr: bool,
    no_color: bool,
    all: Option<String>,
    ctype: Option<String>,
    lang: Option<String>,
    r: Settings,
)
    requires
        call_ensures(settings, (mode, stdout, stderr, no_color, all, ctype, lang), r),
    ensures
        mode is Always ==> r.stdout && r.stderr,
        mode is Never ==> !r.stdout && !r.stderr,
        mode is Auto && no_color ==> !r.stdout && !r.stderr,
        mode is Auto && !no_color ==> r.stdout == stdout && r.stderr == stderr,
{
}

/// Unicode is shown where the first locale that is set has UTF-8 in its name, and where none is
/// set; a name without an eight in it has none.
pub proof fn law_unicode_is_named_by_the_locale(
    mode: ColorMode,
    stdout: bool,
    stderr: bool,
    no_color: bool,
    all: Option<String>,
    ctype: Option<String>,
    lang: Option<String>,
    r: Settings,
    name: Seq<char>,
    a: Seq<char>,
    b: Seq<char>,
)
    requires
        call_ensures(settings, (mode, stdout, stderr, no_color, all, ctype, lang), r),
    ensures
        unset(all) && unset(ctype) && unset(lang) ==> r.unicode,
        names(all, name) || unset(all) && names(ctype, name) || unset(all) && unset(ctype) && names(
            lang,
            name,
        ) ==> {
            &&& name == a + "UTF-8"@ + b || name == a + "utf8"@ + b || name == a + "utf-8"@ + b
                ==> r.unicode
            &&& !name.contains('8') ==> !r.unicode
        },
{
    lemma_first_locale(view_opt(all), view_opt(ctype), view_opt(lang));
    lemma_utf8(a, b);
    if !name.contains('8') {
        lemma_no_utf8(name);
    }
}

/// Whether no locale is set.
pub open spec fn unset(locale: Option<String>) -> bool {
    locale matches Some(text) ==> text@.len() == 0
}

/// Whether a locale is set to a name.
pub open spec fn names(locale: Option<String>, name: Seq<char>) -> bool {
    locale matches Some(text) && text@ == name && name.len() > 0
}

proof fn lemma_first_locale(a: Option<Seq<char>>, b: Option<Seq<char>>, c: Option<Seq<char>>)
    ensures
        first_some(seq![filled(a), filled(b), filled(c)]) == if filled(a) is Some {
            filled(a)
        } else if filled(b) is Some {
            filled(b)
        } else {
            filled(c)
        },
{
    reveal_with_fuel(first_some, 4);
    let list = seq![filled(a), filled(b), filled(c)];
    assert(list.skip(1) =~= seq![filled(b), filled(c)]);
    assert(list.skip(1).skip(1) =~= seq![filled(c)]);
    assert(list.skip(1).skip(1).skip(1).len() == 0);
}

proof fn lemma_folded_parts(a: Seq<char>, b: Seq<char>)
    ensures
        folded(a + b) == folded(a) + folded(b),
    decreases b.len(),
{
    if b.len() == 0 {
        assert(a + b =~= a);
        assert(folded(b) =~= seq![]);
    } else {
        assert((a + b).drop_last() =~= a + b.drop_last());
        lemma_folded_parts(a, b.drop_last());
        assert(folded(a + b) =~= folded(a) + folded(b));
    }
}

proof fn lemma_folded_one(c: char)
    ensures
        folded(seq![c]) == if c == '-' {
            seq![]
        } else {
            seq![small(c)]
        },
{
    reveal_with_fuel(folded, 2);
    assert(seq![c].drop_last() =~= seq![]);
    assert(folded(seq![c]) =~= if c == '-' {
        seq![]
    } else {
        seq![small(c)]
    });
}

proof fn lemma_utf8(a: Seq<char>, b: Seq<char>)
    ensures
        has_part(folded(a + "UTF-8"@ + b), "utf8"@),
        has_part(folded(a + "utf8"@ + b), "utf8"@),
        has_part(folded(a + "utf-8"@ + b), "utf8"@),
{
    reveal_strlit("UTF-8");
    reveal_strlit("utf-8");
    reveal_strlit("utf8");
    lemma_folded_name("UTF-8"@);
    lemma_folded_name("utf-8"@);
    lemma_folded_name("utf8"@);
    lemma_utf8_within(a, "UTF-8"@, b);
    lemma_utf8_within(a, "utf-8"@, b);
    lemma_utf8_within(a, "utf8"@, b);
}

/// The three ways to write the name of UTF-8.
proof fn lemma_folded_name(name: Seq<char>)
    requires
        name == "UTF-8"@ || name == "utf-8"@ || name == "utf8"@,
    ensures
        folded(name) == "utf8"@,
{
    reveal_strlit("UTF-8");
    reveal_strlit("utf-8");
    reveal_strlit("utf8");
    lemma_folded_one(name[0]);
    lemma_folded_one(name[1]);
    lemma_folded_one(name[2]);
    lemma_folded_one(name[3]);
    let three = seq![name[0]] + seq![name[1]] + seq![name[2]];
    lemma_folded_parts(seq![name[0]], seq![name[1]]);
    lemma_folded_parts(seq![name[0]] + seq![name[1]], seq![name[2]]);
    lemma_folded_parts(three, seq![name[3]]);
    let four = three + seq![name[3]];
    if name.len() == 4 {
        assert(name =~= four);
    } else {
        lemma_folded_one(name[4]);
        lemma_folded_parts(four, seq![name[4]]);
        assert(name =~= four + seq![name[4]]);
    }
    assert(folded(name) =~= "utf8"@);
}

proof fn lemma_utf8_within(a: Seq<char>, name: Seq<char>, b: Seq<char>)
    requires
        folded(name) == "utf8"@,
    ensures
        has_part(folded(a + name + b), "utf8"@),
{
    lemma_folded_parts(a, name);
    lemma_folded_parts(a + name, b);
    let all = folded(a + name + b);
    let at = folded(a).len() as int;
    assert(all.subrange(at, at + "utf8"@.len()) =~= "utf8"@);
    assert(occurs_at(all, "utf8"@, at));
}

proof fn lemma_no_utf8(name: Seq<char>)
    requires
        !name.contains('8'),
    ensures
        !has_part(folded(name), "utf8"@),
{
    lemma_no_eight(name);
    reveal_strlit("utf8");
    let all = folded(name);
    if has_part(all, "utf8"@) {
        let at = choose|at: int| #[trigger] occurs_at(all, "utf8"@, at);
        assert(all.subrange(at, at + "utf8"@.len())[3] == all[at + 3]);
        assert("utf8"@[3] == '8');
        assert(all.contains(all[at + 3]));
    }
}

proof fn lemma_no_eight(name: Seq<char>)
    requires
        !name.contains('8'),
    ensures
        !folded(name).contains('8'),
    decreases name.len(),
{
    if name.len() > 0 {
        let first = name.drop_last();
        assert(!first.contains('8')) by {
            if first.contains('8') {
                let k = choose|k: int| 0 <= k < first.len() && first[k] == '8';
                assert(name[k] == '8');
            }
        }
        lemma_no_eight(first);
        assert(name.contains(name.last()));
        if folded(name).contains('8') {
            let k = choose|k: int| 0 <= k < folded(name).len() && folded(name)[k] == '8';
            if k < folded(first).len() {
                assert(folded(first)[k] == '8');
            }
        }
    }
}

} // verus!
