use shellops::cli::ColorMode;
use shellops::term::{mode_from_args, settings};
use shellops::ui::Settings;

fn mode(args: &[&str]) -> ColorMode {
    let list: Vec<String> = args.iter().map(|arg| arg.to_string()).collect();
    mode_from_args(&list)
}

#[test]
fn the_last_color_mode_counts() {
    assert_eq!(mode(&[]), ColorMode::Auto);
    assert_eq!(mode(&["so"]), ColorMode::Auto);
    assert_eq!(mode(&["--color=never"]), ColorMode::Auto);
    assert_eq!(mode(&["so", "--color=never"]), ColorMode::Never);
    assert_eq!(mode(&["so", "--color", "always", "cc"]), ColorMode::Always);
    assert_eq!(
        mode(&["so", "--color=never", "--color", "always"]),
        ColorMode::Always
    );
    assert_eq!(mode(&["so", "--color=never", "--color=odd"]), ColorMode::Never);
    assert_eq!(mode(&["so", "--", "--color=never"]), ColorMode::Auto);
    assert_eq!(mode(&["so", "--color", "--", "never"]), ColorMode::Auto);
    assert_eq!(mode(&["so", "never"]), ColorMode::Auto);
    assert_eq!(
        mode(&["so", "--color=never", "--color", "auto"]),
        ColorMode::Auto
    );
}

fn shown(mode: ColorMode, no_color: bool) -> Settings {
    settings(mode, true, false, no_color, None, None, None)
}

#[test]
fn colors_are_for_terminals_unless_asked_for() {
    let auto = shown(ColorMode::Auto, false);
    assert!(auto.stdout && !auto.stderr && auto.unicode);
    assert!(!shown(ColorMode::Auto, true).stdout);
    let always = shown(ColorMode::Always, true);
    assert!(always.stdout && always.stderr);
    assert!(!shown(ColorMode::Never, false).stdout);
}

#[test]
fn unicode_follows_the_first_locale_that_is_set() {
    let unicode = |all: &str, ctype: &str, lang: Option<&str>| {
        settings(
            ColorMode::Auto,
            false,
            false,
            false,
            Some(all.to_string()),
            Some(ctype.to_string()),
            lang.map(str::to_string),
        )
        .unicode
    };
    assert!(unicode("", "", None));
    assert!(unicode("en_US.UTF-8", "C", Some("C")));
    assert!(unicode("", "de_DE.utf8", Some("C")));
    assert!(unicode("", "", Some("C.uTf-8")));
    assert!(!unicode("C", "en_US.UTF-8", None));
    assert!(!unicode("", "POSIX", Some("en_US.UTF-8")));
    assert!(!unicode("", "", Some("de_DE.UTF-16")));
}
