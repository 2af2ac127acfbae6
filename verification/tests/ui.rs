use shellops::help::{help_rows, print_help};
use shellops::progress::{phase_look, spinner};
use shellops::prompt::{
    confirm, confirm_default, format_confirm_prompt, format_confirm_prompt_selection, multi_select,
    select, Ask,
};
use shellops::ui::{
    err_line, error_text, hinted, info_line, ok_line, panel, section_line, table, warn_line, Cause,
    Color, Settings, Style, Theme,
};

fn ascii() -> Theme {
    Theme {
        color: false,
        unicode: false,
    }
}

#[test]
fn plain_lines_have_no_escapes() {
    let theme = Theme::plain();
    assert_eq!(section_line(theme, "Title"), "==> Title");
    assert_eq!(ok_line(theme, "done"), "✔ done");
    assert!(!Theme::colored().heading("x").is_empty());
    assert!(Theme::colored().heading("x").contains('\u{1b}'));
}

#[test]
fn colored_texts_are_escaped() {
    let theme = Theme::colored();
    assert_eq!(theme.bold("x"), "\u{1b}[1mx\u{1b}[0m");
    assert_eq!(theme.dim("x"), "\u{1b}[2mx\u{1b}[0m");
    assert_eq!(theme.heading("x"), "\u{1b}[34;1mx\u{1b}[0m");
    assert_eq!(theme.path("x"), "\u{1b}[36mx\u{1b}[0m");
    assert_eq!(theme.good("x"), "\u{1b}[32mx\u{1b}[0m");
    assert_eq!(theme.bad("x"), "\u{1b}[31mx\u{1b}[0m");
    assert_eq!(theme.caution("x"), "\u{1b}[33mx\u{1b}[0m");
    assert_eq!(theme.paint("x", Style::Blue), "\u{1b}[34mx\u{1b}[0m");
    assert_eq!(theme.paint("x", Style::BoldRed), "\u{1b}[31;1mx\u{1b}[0m");
    assert_eq!(theme.paint("x", Style::BoldYellow), "\u{1b}[33;1mx\u{1b}[0m");
    assert_eq!(theme.arrow(), "\u{1b}[2m➜\u{1b}[0m");
    assert_eq!(theme.sep(), "\u{1b}[2m · \u{1b}[0m");
}

#[test]
fn signs_are_plain_where_unicode_is_not_shown() {
    assert_eq!(ok_line(ascii(), "done"), "+ done");
    assert_eq!(warn_line(ascii(), "odd"), "! odd");
    assert_eq!(err_line(ascii(), "bad"), "x bad");
    assert_eq!(info_line(ascii(), "so"), "i so");
    assert_eq!(ascii().arrow(), "->");
    assert_eq!(ascii().sep(), " | ");
    assert_eq!(warn_line(Theme::plain(), "odd"), "⚠ odd");
    assert_eq!(err_line(Theme::plain(), "bad"), "✖ bad");
    assert_eq!(info_line(Theme::plain(), "so"), "ℹ so");
}

#[test]
fn themes_follow_the_terminal() {
    let settings = Settings {
        stdout: true,
        stderr: false,
        unicode: true,
    };
    assert_eq!(Theme::stdout(settings), Theme::colored());
    assert_eq!(Theme::stderr(settings), Theme::plain());
    assert!(Theme::stdout(settings).color());
    assert!(Theme::stdout(settings).unicode());
}

#[test]
fn hints_follow_messages() {
    assert_eq!(hinted("no file", "Make one.").text(), "no file. Make one.");
    assert_eq!(hinted("Continue?", "Say so.").text(), "Continue? Say so.");
}

#[test]
fn errors_show_their_causes_and_the_first_hint() {
    let chain = [
        Cause::Plain("could not start".to_string()),
        Cause::Hinted(hinted("no file", "Make one.")),
        Cause::Hinted(hinted("no disk", "Buy one.")),
    ];
    assert_eq!(
        error_text(Theme::plain(), &chain),
        "✖ could not start\n  ➜ no file\n  ➜ no disk\n  Make one."
    );
    assert_eq!(error_text(ascii(), &chain[..1]), "x could not start");
}

#[test]
fn cells_are_styled_in_color_only() {
    let sheet = table(Theme::colored(), &["key"]);
    assert_eq!(sheet.header[0].text, "key");
    assert_eq!(sheet.header[0].color, Some(Color::Cyan));
    assert!(sheet.header[0].bold);
    let sheet = table(ascii(), &["key"]);
    assert_eq!(sheet.header[0].color, None);
    assert!(!sheet.header[0].bold);
    assert!(!sheet.unicode);
    let sheet = panel(Theme::colored(), vec![("root", "/work".to_string())]);
    assert!(sheet.header.is_empty());
    assert_eq!(sheet.rows[0][0].color, Some(Color::Blue));
    assert_eq!(sheet.rows[0][1].text, "/work");
    assert_eq!(sheet.rows[0][1].color, None);
    let cell = Theme::colored().cell("x", Some(Color::Yellow), false);
    assert_eq!(cell.color, Some(Color::Yellow));
    assert!(!cell.bold);
}

#[test]
fn help_lists_the_commands() {
    assert_eq!(help_rows().len(), 25);
    let page = print_help(Theme::plain());
    assert_eq!(page.title, "==> shellops");
    assert_eq!(page.sheet.header[0].text, "command");
    assert_eq!(page.sheet.header[1].text, "what it does");
    assert_eq!(page.sheet.rows.len(), 25);
    assert_eq!(page.sheet.rows[2][0].text, "cc");
    assert_eq!(
        page.sheet.rows[2][1].text,
        "Clear caches in three parallel phases"
    );
    assert_eq!(page.footer, "  Config lives in ~/.shellops");
}

#[test]
fn questions_need_a_terminal() {
    assert!(matches!(confirm("Go?", true, false), Ask::Settled(true)));
    assert!(matches!(confirm("Go?", false, true), Ask::Question));
    assert!(matches!(confirm_default("Go?", true), Ask::Question));
    match confirm_default("Go?", false) {
        Ask::Refused(refusal) => assert_eq!(
            refusal.text(),
            "Go? Run this command in a terminal so it can ask."
        ),
        _ => panic!("there is no terminal"),
    }
    assert_eq!(select(true), Ok(()));
    assert_eq!(
        select(false),
        Err("pass arguments, or run in a terminal".to_string())
    );
    assert_eq!(multi_select("Packages", true), Ok(()));
    assert_eq!(
        multi_select("Packages", false),
        Err("pass arguments, or run Packages in a terminal".to_string())
    );
}

#[test]
fn questions_show_their_default() {
    let theme = Theme::plain();
    assert_eq!(format_confirm_prompt(theme, "Go?", Some(true)), "? Go? [Y/n] ");
    assert_eq!(format_confirm_prompt(theme, "Go?", Some(false)), "? Go? [y/N] ");
    assert_eq!(format_confirm_prompt(theme, "Go?", None), "? Go? [y/n] ");
    assert_eq!(
        format_confirm_prompt(Theme::colored(), "Go?", Some(true)),
        "\u{1b}[33;1m?\u{1b}[0m \u{1b}[1mGo?\u{1b}[0m \u{1b}[2m[\u{1b}[1mY\u{1b}[0m/n]\u{1b}[0m "
    );
    assert_eq!(
        format_confirm_prompt_selection(theme, "Go?", Some(true)),
        "✔ Go? · yes"
    );
    assert_eq!(
        format_confirm_prompt_selection(theme, "Go?", Some(false)),
        "✖ Go? · no"
    );
    assert_eq!(format_confirm_prompt_selection(theme, "Go?", None), "? Go?");
}

#[test]
fn spinners_are_shown_on_terminals() {
    assert!(spinner(Theme::plain(), true, true).is_none());
    assert!(spinner(Theme::plain(), false, false).is_none());
    let look = spinner(Theme::colored(), false, true).unwrap();
    assert_eq!(look.template, "{spinner:.cyan.bold} {msg} {elapsed:.dim}");
    assert_eq!(look.ticks, "⠋⠙⠹⠸⠼⠴⠦⠧⠇⠏ ");
    assert_eq!(phase_look(ascii()).template, "{spinner} {msg}");
    assert_eq!(phase_look(ascii()).ticks, "|/-\\ ");
}
