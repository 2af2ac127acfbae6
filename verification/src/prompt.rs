//! Questions to the user.

use crate::text::glue3;
use crate::ui::{hinted, painted, signs, Hinted, Style, Theme};
use vstd::prelude::*;

verus! {

/// What becomes of a question.
#[derive(Debug, Clone, PartialEq, Eq)]
pub enum Ask {
    /// It is answered already.
    Settled(bool),
    /// The user is asked.
    Question,
    /// Nobody is there to answer.
    Refused(Hinted),
}

/// A question that only a terminal can answer.
pub open spec fn asks(prompt: Seq<char>, tty: bool, ask: Ask) -> bool {
    if tty {
        ask is Question
    } else {
        &&& ask matches Ask::Refused(error)
        &&& error.message@ == prompt
        &&& error.hint@ == "Run this command in a terminal so it can ask."@
    }
}

pub fn confirm_default(prompt: &str, tty: bool) -> (r: Ask)
    ensures
        asks(prompt@, tty, r),
{
    if !tty {
        return Ask::Refused(hinted(prompt, "Run this command in a terminal so it can ask."));
    }
    Ask::Question
}

/// Whether to go on: a `yes` given beforehand needs no question.
pub fn confirm(prompt: &str, yes: bool, tty: bool) -> (r: Ask)
    ensures
        if yes {
            r == Ask::Settled(true)
        } else {
            asks(prompt@, tty, r)
        },
{
    if yes {
        return Ask::Settled(true);
    }
    confirm_default(prompt, tty)
}

/// The error where a list cannot be chosen from.
pub fn select(tty: bool) -> (r: Result<(), String>)
    ensures
        match r {
            Ok(_) => tty,
            Err(text) => !tty && text@ == "pass arguments, or run in a terminal"@,
        },
{
    if tty {
        Ok(())
    } else {
        Err("pass arguments, or run in a terminal".to_string())
    }
}

/// The error where several of a list cannot be chosen.
pub fn multi_select(prompt: &str, tty: bool) -> (r: Result<(), String>)
    ensures
        match r {
            Ok(_) => tty,
            Err(text) => !tty && text@ == "pass arguments, or run "@ + prompt@
                + " in a terminal"@,
        },
{
    if tty {
        Ok(())
    } else {
        Err(glue3("pass arguments, or run ", prompt, " in a terminal"))
    }
}

/// The answers on offer; the one that is taken by default stands out.
pub open spec fn choices(theme: Theme, default: Option<bool>) -> Seq<char> {
    match default {
        Some(true) => "["@ + painted(theme, "Y"@, Style::Bold) + "/n]"@,
        Some(false) => "[y/"@ + painted(theme, "N"@, Style::Bold) + "]"@,
        None => "[y/n]"@,
    }
}

/// How a question is put.
pub fn format_confirm_prompt(theme: Theme, prompt: &str, default: Option<bool>) -> (r: String)
    ensures
        r@ == painted(theme, "?"@, Style::BoldYellow) + " "@ + painted(
            theme,
            prompt@,
            Style::Bold,
        ) + " "@ + painted(theme, choices(theme, default), Style::Dimmed) + " "@,
{
    let offered = match default {
        Some(true) => glue3("[", theme.bold("Y").as_str(), "/n]"),
        Some(false) => glue3("[y/", theme.bold("N").as_str(), "]"),
        None => "[y/n]".to_string(),
    };
    let mut out = theme.paint("?", Style::BoldYellow);
    out.append(" ");
    out.append(theme.bold(prompt).as_str());
    out.append(" ");
    out.append(theme.dim(offered.as_str()).as_str());
    out.append(" ");
    out
}

/// The first word of an answered question: its sign and the question itself.
pub open spec fn answered(theme: Theme, sign: Seq<char>, style: Style, prompt: Seq<char>) -> Seq<
    char,
> {
    painted(theme, sign, style) + " "@ + painted(theme, prompt, Style::Bold)
}

/// An answered question as it stays on the screen.
pub open spec fn settled(theme: Theme, prompt: Seq<char>, selection: Option<bool>) -> Seq<char> {
    let icons = signs(theme.unicode);
    let sep = painted(theme, icons.sep@, Style::Dimmed);
    match selection {
        Some(true) => answered(theme, icons.check@, Style::Green, prompt) + sep + painted(
            theme,
            "yes"@,
            Style::Green,
        ),
        Some(false) => answered(theme, icons.cross@, Style::Red, prompt) + sep + painted(
            theme,
            "no"@,
            Style::Red,
        ),
        None => answered(theme, "?"@, Style::Dimmed, prompt),
    }
}

/// An answered question as it stays on the screen.
pub fn format_confirm_prompt_selection(
    theme: Theme,
    prompt: &str,
    selection: Option<bool>,
) -> (r: String)
    ensures
        r@ == settled(theme, prompt@, selection),
{
    let icons = theme.icons();
    let bold = theme.bold(prompt);
    match selection {
        Some(true) => {
            let start = glue3(theme.good(icons.check).as_str(), " ", bold.as_str());
            glue3(start.as_str(), theme.sep().as_str(), theme.good("yes").as_str())
        },
        Some(false) => {
            let start = glue3(theme.bad(icons.cross).as_str(), " ", bold.as_str());
            glue3(start.as_str(), theme.sep().as_str(), theme.bad("no").as_str())
        },
        None => glue3(theme.dim("?").as_str(), " ", bold.as_str()),
    }
}

// Questions in writing.

/// A question is put only on a terminal; without one it is refused, unless it was answered with yes
/// beforehand.
pub proof fn law_questions_need_a_terminal(
    prompt: &str,
    yes: bool,
    tty: bool,
    r: Ask,
    default: Ask,
    one: Result<(), String>,
    many: Result<(), String>,
)
    requires
        call_ensures(confirm, (prompt, yes, tty), r),
        call_ensures(confirm_default, (prompt, tty), default),
        call_ensures(select, (tty,), one),
        call_ensures(multi_select, (prompt, tty), many),
    ensures
        yes ==> r == Ask::Settled(true),
        !yes && tty ==> r is Question,
        tty ==> default is Question && one is Ok && many is Ok,
        !tty ==> {
            &&& !yes ==> (r matches Ask::Refused(error) && error.message@ == prompt@ && error.hint@
                == "Run this command in a terminal so it can ask."@)
            &&& default matches Ask::Refused(error) && error.message@ == prompt@ && error.hint@
                == "Run this command in a terminal so it can ask."@
            &&& one matches Err(text) && text@ == "pass arguments, or run in a terminal"@
            &&& many matches Err(text) && text@ == "pass arguments, or run "@ + prompt@
                + " in a terminal"@
        },
{
}

/// Without colors a question ends with the answers on offer, the default one as a capital, and an
/// answered one with the answer.
pub proof fn law_questions_show_their_answers(
    theme: Theme,
    prompt: &str,
    default: Option<bool>,
    r: String,
    answered: String,
)
    requires
        call_ensures(format_confirm_prompt, (theme, prompt, default), r),
        call_ensures(format_confirm_prompt_selection, (theme, prompt, default), answered),
        !theme.color,
    ensures
        default == Some(true) ==> r@ == "? "@ + prompt@ + " [Y/n] "@,
        default == Some(false) ==> r@ == "? "@ + prompt@ + " [y/N] "@,
        default is None ==> r@ == "? "@ + prompt@ + " [y/n] "@,
        default == Some(true) && theme.unicode ==> answered@ == "✔ "@ + prompt@ + " · yes"@,
        default == Some(false) && theme.unicode ==> answered@ == "✖ "@ + prompt@ + " · no"@,
        default == Some(true) && !theme.unicode ==> answered@ == "+ "@ + prompt@ + " | yes"@,
        default == Some(false) && !theme.unicode ==> answered@ == "x "@ + prompt@ + " | no"@,
        default is None ==> answered@ == "? "@ + prompt@,
{
    reveal_strlit("? ");
    reveal_strlit("?");
    reveal_strlit(" ");
    reveal_strlit("[");
    reveal_strlit("Y");
    reveal_strlit("/n]");
    reveal_strlit("[y/");
    reveal_strlit("N");
    reveal_strlit("]");
    reveal_strlit("[y/n]");
    reveal_strlit(" [Y/n] ");
    reveal_strlit(" [y/N] ");
    reveal_strlit(" [y/n] ");
    reveal_strlit("✔");
    reveal_strlit("✖");
    reveal_strlit("+");
    reveal_strlit("x");
    reveal_strlit("✔ ");
    reveal_strlit("✖ ");
    reveal_strlit("+ ");
    reveal_strlit("x ");
    reveal_strlit(" · ");
    reveal_strlit(" | ");
    reveal_strlit("yes");
    reveal_strlit("no");
    reveal_strlit(" · yes");
    reveal_strlit(" · no");
    reveal_strlit(" | yes");
    reveal_strlit(" | no");
    match default {
        Some(true) => {
            assert(r@ =~= "? "@ + prompt@ + " [Y/n] "@);
            if theme.unicode {
                assert(answered@ =~= "✔ "@ + prompt@ + " · yes"@);
            } else {
                assert(answered@ =~= "+ "@ + prompt@ + " | yes"@);
            }
        },
        Some(false) => {
            assert(r@ =~= "? "@ + prompt@ + " [y/N] "@);
            if theme.unicode {
                assert(answered@ =~= "✖ "@ + prompt@ + " · no"@);
            } else {
                assert(answered@ =~= "x "@ + prompt@ + " | no"@);
            }
        },
        None => {
            assert(r@ =~= "? "@ + prompt@ + " [y/n] "@);
            assert(answered@ =~= "? "@ + prompt@);
        },
    }
}

} // verus!
