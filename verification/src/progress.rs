//! How progress is drawn.

use crate::ui::Theme;
use vstd::prelude::*;

verus! {

/// A template and the signs that turn in it.
#[derive(Debug, Clone, Copy, PartialEq, Eq)]
pub struct Look {
    pub template: &'static str,
    pub ticks: &'static str,
}

/// The signs that turn.
pub open spec fn turning(unicode: bool) -> Seq<char> {
    if unicode {
        "⠋⠙⠹⠸⠼⠴⠦⠧⠇⠏ "@
    } else {
        "|/-\\ "@
    }
}

fn ticks(unicode: bool) -> (r: &'static str)
    ensures
        r@ == turning(unicode),
{
    if unicode {
        "⠋⠙⠹⠸⠼⠴⠦⠧⠇⠏ "
    } else {
        "|/-\\ "
    }
}

/// How the phases that run beside one another are drawn.
pub fn phase_look(theme: Theme) -> (r: Look)
    ensures
        r.template@ == if theme.color {
            "{spinner:.cyan.bold} {msg}"@
        } else {
            "{spinner} {msg}"@
        },
        r.ticks@ == turning(theme.unicode),
{
    Look {
        template: if theme.color {
            "{spinner:.cyan.bold} {msg}"
        } else {
            "{spinner} {msg}"
        },
        ticks: ticks(theme.unicode),
    }
}

/// How a single wait is drawn; where it is to be quiet, or standard error is no terminal, it
/// is not drawn.
pub fn spinner(theme: Theme, quiet: bool, tty: bool) -> (r: Option<Look>)
    ensures
        match r {
            None => quiet || !tty,
            Some(look) => {
                &&& !quiet && tty
                &&& look.template@ == if theme.color {
                    "{spinner:.cyan.bold} {msg} {elapsed:.dim}"@
                } else {
                    "{spinner} {msg} {elapsed}"@
                }
                &&& look.ticks@ == turning(theme.unicode)
            },
        },
{
    if quiet || !tty {
        return None;
    }
    Some(
        Look {
            template: if theme.color {
                "{spinner:.cyan.bold} {msg} {elapsed:.dim}"
            } else {
                "{spinner} {msg} {elapsed}"
            },
            ticks: ticks(theme.unicode),
        },
    )
}

/// A wait is drawn only on a terminal that is not to be quiet, in cyan where colors are shown, with
/// signs of ASCII where Unicode is not.
pub proof fn law_waits_are_drawn_on_terminals(
    theme: Theme,
    quiet: bool,
    tty: bool,
    r: Option<Look>,
    phases: Look,
)
    requires
        call_ensures(spinner, (theme, quiet, tty), r),
        call_ensures(phase_look, (theme,), phases),
    ensures
        r is Some <==> tty && !quiet,
        r matches Some(look) ==> look.ticks@ == phases.ticks@,
        r matches Some(look) ==> (theme.color ==> look.template@
            == "{spinner:.cyan.bold} {msg} {elapsed:.dim}"@),
        r matches Some(look) ==> (!theme.color ==> look.template@ == "{spinner} {msg} {elapsed}"@),
        theme.color ==> phases.template@ == "{spinner:.cyan.bold} {msg}"@,
        !theme.color ==> phases.template@ == "{spinner} {msg}"@,
        theme.unicode ==> phases.ticks@ == "⠋⠙⠹⠸⠼⠴⠦⠧⠇⠏ "@,
        !theme.unicode ==> phases.ticks@ == "|/-\\ "@,
{
}

} // verus!
