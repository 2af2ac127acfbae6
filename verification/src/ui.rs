//! What the program shows: themed lines, tables, errors and questions.

use crate::text::{ends_with, glue3, has_suffix, view_opt};
use owo_colors::OwoColorize;
use vstd::prelude::*;

verus! {

/// The signs that stand before lines.
#[derive(Debug, Clone, Copy, PartialEq, Eq)]
pub struct Icons {
    pub check: &'static str,
    pub cross: &'static str,
    pub warn: &'static str,
    pub info: &'static str,
    pub arrow: &'static str,
    pub sep: &'static str,
    pub header: &'static str,
}

/// The signs, in Unicode or in ASCII.
pub open spec fn signs(unicode: bool) -> Icons {
    if unicode {
        Icons {
            check: "✔",
            cross: "✖",
            warn: "⚠",
            info: "ℹ",
            arrow: "➜",
            sep: " · ",
            header: "==>",
        }
    } else {
        Icons {
            check: "+",
            cross: "x",
            warn: "!",
            info: "i",
            arrow: "->",
            sep: " | ",
            header: "==>",
        }
    }
}

/// How text is set off.
#[derive(Debug, Clone, Copy, PartialEq, Eq, Structural)]
pub enum Style {
    Bold,
    Dimmed,
    Blue,
    BoldBlue,
    Cyan,
    Green,
    Red,
    BoldRed,
    Yellow,
    BoldYellow,
}

/// The escape sequence that turns a style on.
pub open spec fn escape(style: Style) -> Seq<char> {
    match style {
        Style::Bold => "\x1b[1m"@,
        Style::Dimmed => "\x1b[2m"@,
        Style::Blue => "\x1b[34m"@,
        Style::BoldBlue => "\x1b[34;1m"@,
        Style::Cyan => "\x1b[36m"@,
        Style::Green => "\x1b[32m"@,
        Style::Red => "\x1b[31m"@,
        Style::BoldRed => "\x1b[31;1m"@,
        Style::Yellow => "\x1b[33m"@,
        Style::BoldYellow => "\x1b[33;1m"@,
    }
}

/// `owo_colors::OwoColorize::style`, written out: the text stands between the escape sequence
/// of the style, its color before its effect, and the one that resets every style.
#[verifier::external_body]
fn styled(text: &str, style: Style) -> (r: String)
    ensures
        r@ == escape(style) + text@ + "\x1b[0m"@,
{
    let style = match style {
        Style::Bold => owo_colors::Style::new().bold(),
        Style::Dimmed => owo_colors::Style::new().dimmed(),
        Style::Blue => owo_colors::Style::new().blue(),
        Style::BoldBlue => owo_colors::Style::new().bold().blue(),
        Style::Cyan => owo_colors::Style::new().cyan(),
        Style::Green => owo_colors::Style::new().green(),
        Style::Red => owo_colors::Style::new().red(),
        Style::BoldRed => owo_colors::Style::new().bold().red(),
        Style::Yellow => owo_colors::Style::new().yellow(),
        Style::BoldYellow => owo_colors::Style::new().bold().yellow(),
    };
    text.style(style).to_string()
}

/// What the terminal can show.
#[derive(Debug, Clone, Copy, PartialEq, Eq, Structural)]
pub struct Settings {
    /// Standard output takes colors.
    pub stdout: bool,
    /// Standard error takes colors.
    pub stderr: bool,
    pub unicode: bool,
}

/// Whether colors and Unicode are shown.
#[derive(Debug, Clone, Copy, PartialEq, Eq, Structural)]
pub struct Theme {
    pub color: bool,
    pub unicode: bool,
}

/// A text in a style, as a theme shows it.
pub open spec fn painted(theme: Theme, text: Seq<char>, style: Style) -> Seq<char> {
    if theme.color {
        escape(style) + text + "\x1b[0m"@
    } else {
        text
    }
}

impl Theme {
    pub fn plain() -> (r: Self)
        ensures
            r == (Theme { color: false, unicode: true }),
    {
        Theme { color: false, unicode: true }
    }

    pub fn colored() -> (r: Self)
        ensures
            r == (Theme { color: true, unicode: true }),
    {
        Theme { color: true, unicode: true }
    }

    pub fn stdout(settings: Settings) -> (r: Self)
        ensures
            r == (Theme { color: settings.stdout, unicode: settings.unicode }),
    {
        Theme { color: settings.stdout, unicode: settings.unicode }
    }

    pub fn stderr(settings: Settings) -> (r: Self)
        ensures
            r == (Theme { color: settings.stderr, unicode: settings.unicode }),
    {
        Theme { color: settings.stderr, unicode: settings.unicode }
    }

    pub fn color(self) -> (r: bool)
        ensures
            r == self.color,
    {
        self.color
    }

    pub fn unicode(self) -> (r: bool)
        ensures
            r == self.unicode,
    {
        self.unicode
    }

    pub fn icons(self) -> (r: Icons)
        ensures
            r == signs(self.unicode),
    {
        if self.unicode {
            Icons {
                check: "✔",
                cross: "✖",
                warn: "⚠",
                info: "ℹ",
                arrow: "➜",
                sep: " · ",
                header: "==>",
            }
        } else {
            Icons {
                check: "+",
                cross: "x",
                warn: "!",
                info: "i",
                arrow: "->",
                sep: " | ",
                header: "==>",
            }
        }
    }

    pub fn sep(self) -> (r: String)
        ensures
            r@ == painted(self, signs(self.unicode).sep@, Style::Dimmed),
    {
        self.dim(self.icons().sep)
    }

    pub fn paint(self, text: &str, style: Style) -> (r: String)
        ensures
            r@ == painted(self, text@, style),
    {
        if self.color {
            styled(text, style)
        } else {
            text.to_string()
        }
    }

    pub fn bold(self, text: &str) -> (r: String)
        ensures
            r@ == painted(self, text@, Style::Bold),
    {
        self.paint(text, Style::Bold)
    }

    pub fn dim(self, text: &str) -> (r: String)
        ensures
            r@ == painted(self, text@, Style::Dimmed),
    {
        self.paint(text, Style::Dimmed)
    }

    pub fn heading(self, text: &str) -> (r: String)
        ensures
            r@ == painted(self, text@, Style::BoldBlue),
    {
        self.paint(text, Style::BoldBlue)
    }

    pub fn path(self, text: &str) -> (r: String)
        ensures
            r@ == painted(self, text@, Style::Cyan),
    {
        self.paint(text, Style::Cyan)
    }

    pub fn good(self, text: &str) -> (r: String)
        ensures
            r@ == painted(self, text@, Style::Green),
    {
        self.paint(text, Style::Green)
    }

    pub fn bad(self, text: &str) -> (r: String)
        ensures
            r@ == painted(self, text@, Style::Red),
    {
        self.paint(text, Style::Red)
    }

    pub fn caution(self, text: &str) -> (r: String)
        ensures
            r@ == painted(self, text@, Style::Yellow),
    {
        self.paint(text, Style::Yellow)
    }

    pub fn arrow(self) -> (r: String)
        ensures
            r@ == painted(self, signs(self.unicode).arrow@, Style::Dimmed),
    {
        self.dim(self.icons().arrow)
    }

    /// A cell of a table; without colors it is plain.
    pub fn cell(self, text: &str, color: Option<Color>, bold: bool) -> (r: Cell)
        ensures
            r@ == cell_of(self, text@, color, bold),
    {
        Cell {
            text: text.to_string(),
            color: if self.color {
                color
            } else {
                None
            },
            bold: self.color && bold,
        }
    }
}

// Lines.

/// The line above a section.
pub open spec fn section_text(theme: Theme, title: Seq<char>) -> Seq<char> {
    painted(theme, signs(theme.unicode).header@, Style::BoldBlue) + " "@ + painted(
        theme,
        title,
        Style::Bold,
    )
}

/// A message after a sign in a style.
pub open spec fn marked(theme: Theme, sign: Seq<char>, style: Style, message: Seq<char>) -> Seq<
    char,
> {
    painted(theme, sign, style) + " "@ + message
}

/// The line of an error.
pub open spec fn error_line(theme: Theme, message: Seq<char>) -> Seq<char> {
    marked(
        theme,
        signs(theme.unicode).cross@,
        Style::BoldRed,
        painted(theme, message, Style::BoldRed),
    )
}

/// A text without escape sequences.
pub open spec fn is_plain(text: Seq<char>) -> bool {
    !text.contains('\x1b')
}

/// Lines that are shown without color have no escape sequences of their own.
pub proof fn law_plain_lines_have_no_escapes(theme: Theme, message: Seq<char>)
    requires
        !theme.color,
        is_plain(message),
    ensures
        is_plain(section_text(theme, message)),
        is_plain(marked(theme, signs(theme.unicode).check@, Style::Green, message)),
        is_plain(marked(theme, signs(theme.unicode).warn@, Style::Yellow, message)),
        is_plain(marked(theme, signs(theme.unicode).info@, Style::Blue, message)),
        is_plain(error_line(theme, message)),
{
    reveal_strlit("✔");
    reveal_strlit("✖");
    reveal_strlit("⚠");
    reveal_strlit("ℹ");
    reveal_strlit("+");
    reveal_strlit("x");
    reveal_strlit("!");
    reveal_strlit("i");
    reveal_strlit("==>");
    reveal_strlit(" ");
}

/// Text that is shown with color begins with an escape sequence, and has the text in it.
pub proof fn law_colored_text_is_escaped(theme: Theme, text: Seq<char>, style: Style)
    requires
        theme.color,
    ensures
        painted(theme, text, style).len() > text.len(),
        painted(theme, text, style)[0] == '\x1b',
        painted(theme, text, style).subrange(
            escape(style).len() as int,
            (escape(style).len() + text.len()) as int,
        ) == text,
{
    reveal_strlit("\x1b[1m");
    reveal_strlit("\x1b[2m");
    reveal_strlit("\x1b[34m");
    reveal_strlit("\x1b[34;1m");
    reveal_strlit("\x1b[36m");
    reveal_strlit("\x1b[32m");
    reveal_strlit("\x1b[31m");
    reveal_strlit("\x1b[31;1m");
    reveal_strlit("\x1b[33m");
    reveal_strlit("\x1b[33;1m");
    assert(painted(theme, text, style).subrange(
        escape(style).len() as int,
        (escape(style).len() + text.len()) as int,
    ) =~= text);
}

pub fn section_line(theme: Theme, title: &str) -> (r: String)
    ensures
        r@ == section_text(theme, title@),
{
    glue3(theme.heading(theme.icons().header).as_str(), " ", theme.bold(title).as_str())
}

pub fn ok_line(theme: Theme, message: &str) -> (r: String)
    ensures
        r@ == marked(theme, signs(theme.unicode).check@, Style::Green, message@),
{
    glue3(theme.good(theme.icons().check).as_str(), " ", message)
}

pub fn warn_line(theme: Theme, message: &str) -> (r: String)
    ensures
        r@ == marked(theme, signs(theme.unicode).warn@, Style::Yellow, message@),
{
    glue3(theme.caution(theme.icons().warn).as_str(), " ", message)
}

pub fn err_line(theme: Theme, message: &str) -> (r: String)
    ensures
        r@ == error_line(theme, message@),
{
    glue3(
        theme.paint(theme.icons().cross, Style::BoldRed).as_str(),
        " ",
        theme.paint(message, Style::BoldRed).as_str(),
    )
}

pub fn info_line(theme: Theme, message: &str) -> (r: String)
    ensures
        r@ == marked(theme, signs(theme.unicode).info@, Style::Blue, message@),
{
    glue3(theme.paint(theme.icons().info, Style::Blue).as_str(), " ", message)
}

// Errors.

/// An error with a hint at what helps.
#[derive(Debug, Clone, PartialEq, Eq)]
pub struct Hinted {
    pub message: String,
    pub hint: String,
}

/// The message and the hint as two sentences.
pub open spec fn hinted_text(message: Seq<char>, hint: Seq<char>) -> Seq<char> {
    if has_suffix(message, "."@) || has_suffix(message, "?"@) || has_suffix(message, "!"@) {
        message + " "@ + hint
    } else {
        message + ". "@ + hint
    }
}

impl Hinted {
    /// The message and the hint as two sentences.
    pub fn text(&self) -> (r: String)
        ensures
            r@ == hinted_text(self.message@, self.hint@),
    {
        let message = self.message.as_str();
        if ends_with(message, ".") || ends_with(message, "?") || ends_with(message, "!") {
            glue3(message, " ", self.hint.as_str())
        } else {
            glue3(message, ". ", self.hint.as_str())
        }
    }
}

pub fn hinted(message: &str, hint: &str) -> (r: Hinted)
    ensures
        r.message@ == message@,
        r.hint@ == hint@,
{
    Hinted { message: message.to_string(), hint: hint.to_string() }
}

/// One error of a chain, each the cause of the one before it.
#[derive(Debug, Clone, PartialEq, Eq)]
pub enum Cause {
    Plain(String),
    Hinted(Hinted),
}

/// What an error says, without its hint.
pub open spec fn said(cause: Cause) -> Seq<char> {
    match cause {
        Cause::Plain(text) => text@,
        Cause::Hinted(hinted) => hinted.message@,
    }
}

/// The lines of the causes, each begun anew.
pub open spec fn cause_lines(theme: Theme, causes: Seq<Cause>) -> Seq<char>
    decreases causes.len(),
{
    if causes.len() == 0 {
        seq![]
    } else {
        cause_lines(theme, causes.drop_last()) + "\n  "@ + signs(theme.unicode).arrow@ + " "@
            + said(causes.last())
    }
}

/// The first hint in a chain.
pub open spec fn first_hint(chain: Seq<Cause>) -> Option<Seq<char>>
    decreases chain.len(),
{
    if chain.len() == 0 {
        None
    } else {
        match chain[0] {
            Cause::Hinted(hinted) => Some(hinted.hint@),
            Cause::Plain(_) => first_hint(chain.skip(1)),
        }
    }
}

/// A chain of errors as it is shown: the first as the headline, its causes under it, and the
/// first hint at the end.
pub open spec fn shown_error(theme: Theme, chain: Seq<Cause>) -> Seq<char> {
    error_line(
        theme,
        if chain.len() == 0 {
            seq![]
        } else {
            said(chain[0])
        },
    ) + (if chain.len() == 0 {
        seq![]
    } else {
        cause_lines(theme, chain.skip(1))
    }) + (match first_hint(chain) {
        Some(hint) => "\n  "@ + hint,
        None => seq![],
    })
}

fn words_of_cause(cause: &Cause) -> (r: String)
    ensures
        r@ == said(*cause),
{
    match cause {
        Cause::Plain(text) => text.clone(),
        Cause::Hinted(hinted) => hinted.message.clone(),
    }
}

fn hint_of(chain: &[Cause]) -> (r: Option<String>)
    ensures
        view_opt(r) == first_hint(chain@),
{
    let n: usize = chain.len();
    assert(chain@.skip(0) =~= chain@);
    for i in 0..n
        invariant
            n == chain@.len(),
            first_hint(chain@) == first_hint(chain@.skip(i as int)),
    {
        assert(chain@.skip(i as int)[0] == chain@[i as int]);
        if let Cause::Hinted(hinted) = &chain[i] {
            return Some(hinted.hint.clone());
        }
        assert(chain@.skip(i as int).skip(1) =~= chain@.skip(i + 1));
    }
    None
}

pub fn error_text(theme: Theme, chain: &[Cause]) -> (r: String)
    ensures
        r@ == shown_error(theme, chain@),
{
    let n: usize = chain.len();
    let headline = if n == 0 {
        String::new()
    } else {
        words_of_cause(&chain[0])
    };
    let mut out = err_line(theme, headline.as_str());
    let ghost head = out@;
    if n > 0 {
        let ghost rest = chain@.skip(1);
        assert(cause_lines(theme, rest.take(0)) =~= seq![]);
        assert(out@ =~= head + cause_lines(theme, rest.take(0)));
        for i in 1..n
            invariant
                n == chain@.len(),
                rest == chain@.skip(1),
                out@ == head + cause_lines(theme, rest.take(i - 1)),
        {
            out.append("\n  ");
            out.append(theme.icons().arrow);
            out.append(" ");
            out.append(words_of_cause(&chain[i]).as_str());
            proof {
                let now = rest.take(i as int);
                assert(now.drop_last() =~= rest.take(i - 1));
                assert(now.last() == chain@[i as int]);
                assert(out@ =~= head + cause_lines(theme, now));
            }
        }
        assert(rest.take(n - 1) =~= rest);
    }
    let ghost so_far = out@;
    if let Some(hint) = hint_of(chain) {
        out.append("\n  ");
        out.append(hint.as_str());
        assert(out@ =~= so_far + ("\n  "@ + hint@));
    }
    assert(out@ =~= shown_error(theme, chain@));
    out
}

// Tables.

/// The colors of cells.
#[derive(Debug, Clone, Copy, PartialEq, Eq, Structural)]
pub enum Color {
    Cyan,
    Blue,
    Yellow,
}

/// A cell of a table.
#[derive(Debug, Clone, PartialEq, Eq)]
pub struct Cell {
    pub text: String,
    pub color: Option<Color>,
    pub bold: bool,
}

/// What a cell shows.
pub struct CellView {
    pub text: Seq<char>,
    pub color: Option<Color>,
    pub bold: bool,
}

impl View for Cell {
    type V = CellView;

    open spec fn view(&self) -> CellView {
        CellView { text: self.text@, color: self.color, bold: self.bold }
    }
}

/// A cell in a theme.
pub open spec fn cell_of(
    theme: Theme,
    text: Seq<char>,
    color: Option<Color>,
    bold: bool,
) -> CellView {
    CellView {
        text,
        color: if theme.color {
            color
        } else {
            None
        },
        bold: theme.color && bold,
    }
}

/// Cells as what they show.
pub open spec fn cells(row: Seq<Cell>) -> Seq<CellView> {
    row.map_values(|cell: Cell| cell@)
}

/// Rows as what their cells show.
pub open spec fn grid(rows: Seq<Vec<Cell>>) -> Seq<Seq<CellView>> {
    rows.map_values(|row: Vec<Cell>| cells(row@))
}

/// A table to draw.
#[derive(Debug, Clone, PartialEq, Eq)]
pub struct Sheet {
    /// Drawn with box characters.
    pub unicode: bool,
    /// Drawn with colors, whatever it is drawn on.
    pub styled: bool,
    pub header: Vec<Cell>,
    pub rows: Vec<Vec<Cell>>,
}

/// What a table shows.
pub struct SheetView {
    pub unicode: bool,
    pub styled: bool,
    pub header: Seq<CellView>,
    pub rows: Seq<Seq<CellView>>,
}

impl View for Sheet {
    type V = SheetView;

    open spec fn view(&self) -> SheetView {
        SheetView {
            unicode: self.unicode,
            styled: self.styled,
            header: cells(self.header@),
            rows: grid(self.rows@),
        }
    }
}

/// The header cells under a theme.
pub open spec fn header_of(theme: Theme, headers: Seq<&str>) -> Seq<CellView> {
    headers.map_values(|name: &str| cell_of(theme, name@, Some(Color::Cyan), true))
}

/// An empty table with the given header.
pub fn table(theme: Theme, headers: &[&str]) -> (r: Sheet)
    ensures
        r@ == (SheetView {
            unicode: theme.unicode,
            styled: theme.color,
            header: header_of(theme, headers@),
            rows: seq![],
        }),
{
    let mut header: Vec<Cell> = Vec::new();
    let n: usize = headers.len();
    for i in 0..n
        invariant
            n == headers@.len(),
            cells(header@) == header_of(theme, headers@.take(i as int)),
    {
        let ghost had = header@;
        header.push(theme.cell(headers[i], Some(Color::Cyan), true));
        assert(cells(header@) =~= cells(had).push(header@.last()@));
        assert(header_of(theme, headers@.take(i + 1)) =~= header_of(
            theme,
            headers@.take(i as int),
        ).push(header@.last()@));
    }
    assert(headers@.take(n as int) =~= headers@);
    let out = Sheet {
        unicode: theme.unicode,
        styled: theme.color,
        header,
        rows: Vec::new(),
    };
    assert(grid(out.rows@) =~= seq![]);
    out
}

/// A row of two cells: a bold one in a color, and a plain one.
pub open spec fn row_of(theme: Theme, color: Color, key: Seq<char>, text: Seq<char>) -> Seq<
    CellView,
> {
    seq![
        cell_of(theme, key, Some(color), true),
        CellView { text, color: None, bold: false },
    ]
}

/// Rows of two cells.
pub open spec fn rows_of(theme: Theme, color: Color, rows: Seq<(&str, String)>) -> Seq<
    Seq<CellView>,
> {
    rows.map_values(|row: (&str, String)| row_of(theme, color, row.0@, row.1@))
}

/// A row of two cells: a bold one in a color, and a plain one.
pub fn two_cells(theme: Theme, color: Color, key: &str, text: &str) -> (r: Vec<Cell>)
    ensures
        cells(r@) == row_of(theme, color, key@, text@),
{
    let row = vec![
        theme.cell(key, Some(color), true),
        Cell { text: text.to_string(), color: None, bold: false },
    ];
    assert(cells(row@) =~= row_of(theme, color, key@, text@));
    row
}

/// A table of named values.
pub fn panel(theme: Theme, rows: Vec<(&str, String)>) -> (r: Sheet)
    ensures
        r@ == (SheetView {
            unicode: theme.unicode,
            styled: theme.color,
            header: seq![],
            rows: rows_of(theme, Color::Blue, rows@),
        }),
{
    let mut sheet = table(theme, &[]);
    let n: usize = rows.len();
    assert(cells(sheet.header@) =~= seq![]);
    assert(rows_of(theme, Color::Blue, rows@.take(0)) =~= seq![]);
    for i in 0..n
        invariant
            n == rows@.len(),
            sheet.unicode == theme.unicode,
            sheet.styled == theme.color,
            cells(sheet.header@) == Seq::<CellView>::empty(),
            grid(sheet.rows@) == rows_of(theme, Color::Blue, rows@.take(i as int)),
    {
        let row = two_cells(theme, Color::Blue, rows[i].0, rows[i].1.as_str());
        let ghost had = sheet.rows@;
        sheet.rows.push(row);
        assert(grid(sheet.rows@) =~= grid(had).push(cells(row@)));
        assert(rows_of(theme, Color::Blue, rows@.take(i + 1)) =~= rows_of(
            theme,
            Color::Blue,
            rows@.take(i as int),
        ).push(row_of(theme, Color::Blue, rows@[i as int].0@, rows@[i as int].1@)));
    }
    assert(rows@.take(n as int) =~= rows@);
    sheet
}

// Lines and tables in writing.

/// Without colors a line is its sign, a space and its message.
pub proof fn law_plain_lines_are_signs_and_messages(
    theme: Theme,
    message: &str,
    section: String,
    ok: String,
    warn: String,
    info: String,
    error: String,
)
    requires
        !theme.color,
        call_ensures(section_line, (theme, message), section),
        call_ensures(ok_line, (theme, message), ok),
        call_ensures(warn_line, (theme, message), warn),
        call_ensures(info_line, (theme, message), info),
        call_ensures(err_line, (theme, message), error),
    ensures
        section@ == "==> "@ + message@,
        theme.unicode ==> {
            &&& ok@ == "✔ "@ + message@
            &&& warn@ == "⚠ "@ + message@
            &&& info@ == "ℹ "@ + message@
            &&& error@ == "✖ "@ + message@
        },
        !theme.unicode ==> {
            &&& ok@ == "+ "@ + message@
            &&& warn@ == "! "@ + message@
            &&& info@ == "i "@ + message@
            &&& error@ == "x "@ + message@
        },
{
    reveal_strlit("✔");
    reveal_strlit("✖");
    reveal_strlit("⚠");
    reveal_strlit("ℹ");
    reveal_strlit("➜");
    reveal_strlit("+");
    reveal_strlit("x");
    reveal_strlit("!");
    reveal_strlit("i");
    reveal_strlit("->");
    reveal_strlit("==>");
    reveal_strlit(" ");
    reveal_strlit("✔ ");
    reveal_strlit("✖ ");
    reveal_strlit("⚠ ");
    reveal_strlit("ℹ ");
    reveal_strlit("+ ");
    reveal_strlit("x ");
    reveal_strlit("! ");
    reveal_strlit("i ");
    reveal_strlit("==> ");
    assert(section@ =~= "==> "@ + message@);
    if theme.unicode {
        assert(ok@ =~= "✔ "@ + message@);
        assert(warn@ =~= "⚠ "@ + message@);
        assert(info@ =~= "ℹ "@ + message@);
        assert(error@ =~= "✖ "@ + message@);
    } else {
        assert(ok@ =~= "+ "@ + message@);
        assert(warn@ =~= "! "@ + message@);
        assert(info@ =~= "i "@ + message@);
        assert(error@ =~= "x "@ + message@);
    }
}

/// With colors good things are green, bad ones red, warnings yellow, paths cyan, headings bold and
/// blue; without colors all are as they were.
pub proof fn law_kinds_of_text_have_colors(
    theme: Theme,
    text: &str,
    good: String,
    bad: String,
    caution: String,
    path: String,
    heading: String,
    bold: String,
    dim: String,
)
    requires
        call_ensures(Theme::good, (theme, text), good),
        call_ensures(Theme::bad, (theme, text), bad),
        call_ensures(Theme::caution, (theme, text), caution),
        call_ensures(Theme::path, (theme, text), path),
        call_ensures(Theme::heading, (theme, text), heading),
        call_ensures(Theme::bold, (theme, text), bold),
        call_ensures(Theme::dim, (theme, text), dim),
    ensures
        !theme.color ==> {
            &&& good@ == text@ && bad@ == text@ && caution@ == text@ && path@ == text@
            &&& heading@ == text@ && bold@ == text@ && dim@ == text@
        },
        theme.color ==> {
            &&& good@ == "\x1b[32m"@ + text@ + "\x1b[0m"@
            &&& bad@ == "\x1b[31m"@ + text@ + "\x1b[0m"@
            &&& caution@ == "\x1b[33m"@ + text@ + "\x1b[0m"@
            &&& path@ == "\x1b[36m"@ + text@ + "\x1b[0m"@
            &&& heading@ == "\x1b[34;1m"@ + text@ + "\x1b[0m"@
            &&& bold@ == "\x1b[1m"@ + text@ + "\x1b[0m"@
            &&& dim@ == "\x1b[2m"@ + text@ + "\x1b[0m"@
        },
{
}

/// With colors the sign of a line is in the color of its kind, and the message of an error too.
pub proof fn law_signs_have_the_color_of_their_kind(
    theme: Theme,
    message: &str,
    icons: Icons,
    section: String,
    ok: String,
    warn: String,
    info: String,
    error: String,
)
    requires
        theme.color,
        call_ensures(Theme::icons, (theme,), icons),
        call_ensures(section_line, (theme, message), section),
        call_ensures(ok_line, (theme, message), ok),
        call_ensures(warn_line, (theme, message), warn),
        call_ensures(info_line, (theme, message), info),
        call_ensures(err_line, (theme, message), error),
    ensures
        section@ == "\x1b[34;1m"@ + icons.header@ + "\x1b[0m"@ + " "@ + ("\x1b[1m"@ + message@
            + "\x1b[0m"@),
        ok@ == "\x1b[32m"@ + icons.check@ + "\x1b[0m"@ + " "@ + message@,
        warn@ == "\x1b[33m"@ + icons.warn@ + "\x1b[0m"@ + " "@ + message@,
        info@ == "\x1b[34m"@ + icons.info@ + "\x1b[0m"@ + " "@ + message@,
        error@ == "\x1b[31;1m"@ + icons.cross@ + "\x1b[0m"@ + " "@ + ("\x1b[31;1m"@ + message@
            + "\x1b[0m"@),
{
}

/// The theme of an output has its colors, and that of both has the characters of the terminal.
pub proof fn law_themes_are_those_of_the_output(
    settings: Settings,
    out: Theme,
    err: Theme,
    plain: Theme,
    colored: Theme,
)
    requires
        call_ensures(Theme::stdout, (settings,), out),
        call_ensures(Theme::stderr, (settings,), err),
        call_ensures(Theme::plain, (), plain),
        call_ensures(Theme::colored, (), colored),
    ensures
        out.color == settings.stdout && out.unicode == settings.unicode,
        err.color == settings.stderr && err.unicode == settings.unicode,
        !plain.color && plain.unicode,
        colored.color && colored.unicode,
{
}

/// A message ends with a stop before its hint: its own, or else a full stop.
pub proof fn law_hints_follow_a_stop(error: &Hinted, r: String, body: Seq<char>)
    requires
        call_ensures(Hinted::text, (error,), r),
    ensures
        error.message@ == body + "."@ || error.message@ == body + "?"@ || error.message@ == body
            + "!"@ ==> r@ == error.message@ + " "@ + error.hint@,
        error.message@.len() > 0 && error.message@.last() != '.' && error.message@.last() != '?'
            && error.message@.last() != '!' ==> r@ == error.message@ + ". "@ + error.hint@,
{
    reveal_strlit(".");
    reveal_strlit("?");
    reveal_strlit("!");
    let m = error.message@;
    let n = m.len() as int;
    if m == body + "."@ {
        assert(m.skip(n - 1) =~= "."@);
    }
    if m == body + "?"@ {
        assert(m.skip(n - 1) =~= "?"@);
    }
    if m == body + "!"@ {
        assert(m.skip(n - 1) =~= "!"@);
    }
    if n > 0 {
        assert(m.skip(n - 1)[0] == m.last());
        assert("."@[0] == '.' && "?"@[0] == '?' && "!"@[0] == '!');
    }
}

/// Whether no error of a chain has a hint.
pub open spec fn has_no_hint(chain: Seq<Cause>) -> bool {
    forall|i: int| 0 <= i < chain.len() ==> (#[trigger] chain[i]) is Plain
}

/// An error without a cause is a line of its own, and every further cause has a line behind an
/// arrow.
pub proof fn law_causes_have_lines_of_their_own(
    theme: Theme,
    chain: &[Cause],
    shorter: &[Cause],
    r: String,
    prior: String,
    message: &str,
    line: String,
)
    requires
        call_ensures(error_text, (theme, chain), r),
        call_ensures(error_text, (theme, shorter), prior),
        call_ensures(err_line, (theme, message), line),
        chain@.len() > 0,
        has_no_hint(chain@),
        chain@.last() matches Cause::Plain(text) && text@ == message@,
        shorter@ == chain@.drop_last(),
    ensures
        chain@.len() == 1 ==> r@ == line@,
        chain@.len() > 1 && theme.unicode ==> r@ == prior@ + "\n  ➜ "@ + message@,
        chain@.len() > 1 && !theme.unicode ==> r@ == prior@ + "\n  -> "@ + message@,
{
    reveal_strlit("\n  ");
    reveal_strlit("➜");
    reveal_strlit("->");
    reveal_strlit(" ");
    reveal_strlit("\n  ➜ ");
    reveal_strlit("\n  -> ");
    lemma_no_hint(chain@);
    assert forall|i: int| 0 <= i < shorter@.len() implies (#[trigger] shorter@[i]) is Plain by {
        assert(chain@[i] is Plain);
    }
    lemma_no_hint(shorter@);
    let rest = chain@.skip(1);
    if chain@.len() == 1 {
        assert(cause_lines(theme, rest) =~= seq![]);
        assert(r@ =~= line@);
    } else {
        assert(rest.drop_last() =~= shorter@.skip(1));
        assert(rest.last() == chain@.last());
        if theme.unicode {
            assert(r@ =~= prior@ + "\n  ➜ "@ + message@);
        } else {
            assert(r@ =~= prior@ + "\n  -> "@ + message@);
        }
    }
}

proof fn lemma_no_hint(chain: Seq<Cause>)
    requires
        has_no_hint(chain),
    ensures
        first_hint(chain) is None,
    decreases chain.len(),
{
    if chain.len() > 0 {
        assert(chain[0] is Plain);
        let rest = chain.skip(1);
        assert forall|i: int| 0 <= i < rest.len() implies (#[trigger] rest[i]) is Plain by {
            assert(rest[i] == chain[i + 1]);
        }
        lemma_no_hint(rest);
    }
}

/// The first hint of a chain stands at the end, on a line of its own.
pub proof fn law_the_first_hint_is_shown(theme: Theme, chain: &[Cause], r: String, i: int)
    requires
        call_ensures(error_text, (theme, chain), r),
        0 <= i < chain@.len(),
        has_no_hint(chain@.take(i)),
        chain@[i] is Hinted,
    ensures
        has_suffix(r@, "\n  "@ + chain@[i]->Hinted_0.hint@),
{
    lemma_first_hint(chain@, i);
    let end = "\n  "@ + chain@[i]->Hinted_0.hint@;
    assert(r@.skip(r@.len() - end.len()) =~= end);
}

proof fn lemma_first_hint(chain: Seq<Cause>, i: int)
    requires
        0 <= i < chain.len(),
        has_no_hint(chain.take(i)),
        chain[i] is Hinted,
    ensures
        first_hint(chain) == Some(chain[i]->Hinted_0.hint@),
    decreases chain.len(),
{
    if i > 0 {
        assert(chain.take(i)[0] is Plain);
        assert(chain[0] is Plain);
        let rest = chain.skip(1);
        assert forall|k: int| 0 <= k < i - 1 implies (#[trigger] rest.take(i - 1)[k]) is Plain by {
            assert(rest.take(i - 1)[k] == chain.take(i)[k + 1]);
        }
        lemma_first_hint(rest, i - 1);
    }
}

/// A table of named values has a row for each, the name before the value; without colors no cell is
/// set off.
pub proof fn law_panels_have_a_row_for_each_value(
    theme: Theme,
    rows: Vec<(&str, String)>,
    r: Sheet,
    i: int,
)
    requires
        call_ensures(panel, (theme, rows), r),
        0 <= i < rows@.len(),
    ensures
        r.header@.len() == 0,
        r.unicode == theme.unicode,
        r.styled == theme.color,
        r@.rows.len() == rows@.len(),
        r@.rows[i].len() == 2,
        r@.rows[i][0].text == rows@[i].0@,
        r@.rows[i][1].text == rows@[i].1@,
        r@.rows[i][0].color == if theme.color {
            Some(Color::Blue)
        } else {
            None
        },
        r@.rows[i][0].bold == theme.color,
        r@.rows[i][1].color is None && !r@.rows[i][1].bold,
{
    assert(r@.header.len() == r.header@.len());
}

/// A new table has its headers, in bold cyan where colors are shown, and no rows.
pub proof fn law_tables_start_with_their_headers(theme: Theme, headers: &[&str], r: Sheet, i: int)
    requires
        call_ensures(table, (theme, headers), r),
    ensures
        r.rows@.len() == 0,
        r.unicode == theme.unicode,
        r.styled == theme.color,
        r@.header.len() == headers@.len(),
        0 <= i < headers@.len() ==> {
            &&& r@.header[i].text == headers@[i]@
            &&& r@.header[i].bold == theme.color
            &&& r@.header[i].color == if theme.color {
                Some(Color::Cyan)
            } else {
                None
            }
        },
{
    assert(r@.rows.len() == r.rows@.len());
}

} // verus!
