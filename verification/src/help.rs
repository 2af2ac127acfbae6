//! The page of help.

use crate::ui::{
    cell_of, cells, grid, painted, row_of, section_line, section_text, table, two_cells, CellView,
    Color, Sheet, SheetView, Style, Theme,
};
use crate::text::{glue, glue3};
use vstd::prelude::*;

verus! {

/// The commands, each with what it does.
pub open spec fn commands() -> Seq<(Seq<char>, Seq<char>)> {
    seq![
        ("compose"@, "Run docker compose, injecting UID, GID, and USER"@),
        ("build"@, "Build *.Dockerfile images in dependency order"@),
        ("cc"@, "Clear caches in three parallel phases"@),
        ("console, c"@, "Symfony console"@),
        ("composer, cp"@, "Composer, with install flags kept"@),
        ("dump"@, "composer dump-autoload"@),
        ("csf, csfixer"@, "PHP CS Fixer"@),
        ("phpstan"@, "PHPStan"@),
        ("phan"@, "Phan, with a file list when paths are passed"@),
        ("phpunit"@, "PHPUnit"@),
        ("rector"@, "Rector"@),
        ("phpmd"@, "PHPMD"@),
        ("fixtures, f"@, "Load Doctrine fixtures"@),
        ("reset-database, rd"@, "Drop, migrate, and load fixtures"@),
        ("force-drop-database, fdd"@, "dropdb -f the Postgres database"@),
        ("installer"@, "Rebuild, install, and load a fresh database"@),
        ("yarn"@, "Yarn inside the vue service"@),
        ("debug"@, "Show the detected project"@),
        ("sort-dotenv"@, "Sort a dotenv file in place"@),
        ("keypair"@, "Write an OpenSSL key pair"@),
        ("randomstr"@, "Print a random string"@),
        ("config"@, "User and project settings, including secrets"@),
        ("release"@, "Bump, tag, and optionally publish notes"@),
        ("update"@, "Install the latest so release"@),
        ("github"@, "Open the shellops-cli repository"@),
    ]
}

/// The commands, each with what it does.
pub fn help_rows() -> (r: Vec<(&'static str, &'static str)>)
    ensures
        r@.len() == commands().len(),
        forall|i: int|
            0 <= i < r@.len() ==> ((#[trigger] r@[i]).0@, r@[i].1@) == commands()[i],
{
    vec![
        ("compose", "Run docker compose, injecting UID, GID, and USER"),
        ("build", "Build *.Dockerfile images in dependency order"),
        ("cc", "Clear caches in three parallel phases"),
        ("console, c", "Symfony console"),
        ("composer, cp", "Composer, with install flags kept"),
        ("dump", "composer dump-autoload"),
        ("csf, csfixer", "PHP CS Fixer"),
        ("phpstan", "PHPStan"),
        ("phan", "Phan, with a file list when paths are passed"),
        ("phpunit", "PHPUnit"),
        ("rector", "Rector"),
        ("phpmd", "PHPMD"),
        ("fixtures, f", "Load Doctrine fixtures"),
        ("reset-database, rd", "Drop, migrate, and load fixtures"),
        ("force-drop-database, fdd", "dropdb -f the Postgres database"),
        ("installer", "Rebuild, install, and load a fresh database"),
        ("yarn", "Yarn inside the vue service"),
        ("debug", "Show the detected project"),
        ("sort-dotenv", "Sort a dotenv file in place"),
        ("keypair", "Write an OpenSSL key pair"),
        ("randomstr", "Print a random string"),
        ("config", "User and project settings, including secrets"),
        ("release", "Bump, tag, and optionally publish notes"),
        ("update", "Install the latest so release"),
        ("github", "Open the shellops-cli repository"),
    ]
}

/// The page of help, from top to bottom.
#[derive(Debug, Clone, PartialEq, Eq)]
pub struct Page {
    pub title: String,
    pub about: String,
    pub sheet: Sheet,
    pub footer: String,
}

/// The rows of the table of commands.
pub open spec fn command_rows(theme: Theme) -> Seq<Seq<CellView>> {
    commands().map_values(
        |row: (Seq<char>, Seq<char>)| row_of(theme, Color::Cyan, row.0, row.1),
    )
}

fn command_sheet(theme: Theme) -> (r: Sheet)
    ensures
        r@ == (SheetView {
            unicode: theme.unicode,
            styled: theme.color,
            header: seq![
                cell_of(theme, "command"@, Some(Color::Cyan), true),
                cell_of(theme, "what it does"@, Some(Color::Cyan), true),
            ],
            rows: command_rows(theme),
        }),
{
    let mut sheet = table(theme, &["command", "what it does"]);
    let ghost header = seq![
        cell_of(theme, "command"@, Some(Color::Cyan), true),
        cell_of(theme, "what it does"@, Some(Color::Cyan), true),
    ];
    assert(cells(sheet.header@) =~= header);
    let rows = help_rows();
    let n: usize = rows.len();
    assert(command_rows(theme).take(0) =~= seq![]);
    for i in 0..n
        invariant
            n == rows@.len() == command_rows(theme).len(),
            forall|k: int|
                0 <= k < n ==> ((#[trigger] rows@[k]).0@, rows@[k].1@) == commands()[k],
            sheet.unicode == theme.unicode,
            sheet.styled == theme.color,
            cells(sheet.header@) == header,
            grid(sheet.rows@) == command_rows(theme).take(i as int),
    {
        let row = two_cells(theme, Color::Cyan, rows[i].0, rows[i].1);
        let ghost had = sheet.rows@;
        sheet.rows.push(row);
        assert(grid(sheet.rows@) =~= grid(had).push(cells(row@)));
        assert((rows@[i as int].0@, rows@[i as int].1@) == commands()[i as int]);
        assert(command_rows(theme).take(i + 1) =~= command_rows(theme).take(i as int).push(
            command_rows(theme)[i as int],
        ));
    }
    assert(command_rows(theme).take(n as int) =~= command_rows(theme));
    sheet
}

/// The page of help.
pub fn print_help(theme: Theme) -> (r: Page)
    ensures
        r.title@ == section_text(theme, "shellops"@),
        r.about@ == "  "@ + painted(
            theme,
            "Docker, PHP, and release commands for a compose project."@,
            Style::Dimmed,
        ),
        r.sheet@ == (SheetView {
            unicode: theme.unicode,
            styled: theme.color,
            header: seq![
                cell_of(theme, "command"@, Some(Color::Cyan), true),
                cell_of(theme, "what it does"@, Some(Color::Cyan), true),
            ],
            rows: command_rows(theme),
        }),
        r.footer@ == "  "@ + painted(theme, "Config lives in"@, Style::Dimmed) + " "@ + painted(
            theme,
            "~/.shellops"@,
            Style::Cyan,
        ),
{
    let place = glue3(
        theme.dim("Config lives in").as_str(),
        " ",
        theme.path("~/.shellops").as_str(),
    );
    let page = Page {
        title: section_line(theme, "shellops"),
        about: glue(
            "  ",
            theme.dim("Docker, PHP, and release commands for a compose project.").as_str(),
        ),
        sheet: command_sheet(theme),
        footer: glue("  ", place.as_str()),
    };
    assert(page.footer@ =~= "  "@ + painted(theme, "Config lives in"@, Style::Dimmed) + " "@
        + painted(theme, "~/.shellops"@, Style::Cyan));
    page
}

/// Every command has a row in the help, under its name and its short one.
pub proof fn law_help_names_the_commands(r: Vec<(&'static str, &'static str)>)
    requires
        call_ensures(help_rows, (), r),
    ensures
        r@.len() == 25,
        r@[0].0@ == "compose"@,
        r@[1].0@ == "build"@,
        r@[2].0@ == "cc"@,
        r@[3].0@ == "console, c"@,
        r@[4].0@ == "composer, cp"@,
        r@[5].0@ == "dump"@,
        r@[6].0@ == "csf, csfixer"@,
        r@[7].0@ == "phpstan"@,
        r@[8].0@ == "phan"@,
        r@[9].0@ == "phpunit"@,
        r@[10].0@ == "rector"@,
        r@[11].0@ == "phpmd"@,
        r@[12].0@ == "fixtures, f"@,
        r@[13].0@ == "reset-database, rd"@,
        r@[14].0@ == "force-drop-database, fdd"@,
        r@[15].0@ == "installer"@,
        r@[16].0@ == "yarn"@,
        r@[17].0@ == "debug"@,
        r@[18].0@ == "sort-dotenv"@,
        r@[19].0@ == "keypair"@,
        r@[20].0@ == "randomstr"@,
        r@[21].0@ == "config"@,
        r@[22].0@ == "release"@,
        r@[23].0@ == "update"@,
        r@[24].0@ == "github"@,
{
    assert((r@[0].0@, r@[0].1@) == commands()[0]);
    assert((r@[1].0@, r@[1].1@) == commands()[1]);
    assert((r@[2].0@, r@[2].1@) == commands()[2]);
    assert((r@[3].0@, r@[3].1@) == commands()[3]);
    assert((r@[4].0@, r@[4].1@) == commands()[4]);
    assert((r@[5].0@, r@[5].1@) == commands()[5]);
    assert((r@[6].0@, r@[6].1@) == commands()[6]);
    assert((r@[7].0@, r@[7].1@) == commands()[7]);
    assert((r@[8].0@, r@[8].1@) == commands()[8]);
    assert((r@[9].0@, r@[9].1@) == commands()[9]);
    assert((r@[10].0@, r@[10].1@) == commands()[10]);
    assert((r@[11].0@, r@[11].1@) == commands()[11]);
    assert((r@[12].0@, r@[12].1@) == commands()[12]);
    assert((r@[13].0@, r@[13].1@) == commands()[13]);
    assert((r@[14].0@, r@[14].1@) == commands()[14]);
    assert((r@[15].0@, r@[15].1@) == commands()[15]);
    assert((r@[16].0@, r@[16].1@) == commands()[16]);
    assert((r@[17].0@, r@[17].1@) == commands()[17]);
    assert((r@[18].0@, r@[18].1@) == commands()[18]);
    assert((r@[19].0@, r@[19].1@) == commands()[19]);
    assert((r@[20].0@, r@[20].1@) == commands()[20]);
    assert((r@[21].0@, r@[21].1@) == commands()[21]);
    assert((r@[22].0@, r@[22].1@) == commands()[22]);
    assert((r@[23].0@, r@[23].1@) == commands()[23]);
    assert((r@[24].0@, r@[24].1@) == commands()[24]);
}

/// The page of help shows a command and what it does in each row of its table.
pub proof fn law_help_shows_its_rows(
    theme: Theme,
    page: Page,
    rows: Vec<(&'static str, &'static str)>,
    i: int,
)
    requires
        call_ensures(print_help, (theme,), page),
        call_ensures(help_rows, (), rows),
        0 <= i < rows@.len(),
    ensures
        page.sheet@.rows.len() == rows@.len(),
        page.sheet@.rows[i].len() == 2,
        page.sheet@.rows[i][0].text == rows@[i].0@,
        page.sheet@.rows[i][1].text == rows@[i].1@,
        page.sheet@.header.len() == 2,
        page.sheet@.header[0].text == "command"@,
        page.sheet@.header[1].text == "what it does"@,
        !theme.color ==> {
            &&& page.title@ == "==> shellops"@
            &&& page.about@ == "  Docker, PHP, and release commands for a compose project."@
            &&& page.footer@ == "  Config lives in ~/.shellops"@
        },
{
    assert((rows@[i].0@, rows@[i].1@) == commands()[i]);
    if !theme.color {
        reveal_strlit("==>");
        reveal_strlit(" ");
        reveal_strlit("shellops");
        reveal_strlit("==> shellops");
        assert(page.title@ =~= "==> shellops"@);
        reveal_strlit("  ");
        reveal_strlit("Docker, PHP, and release commands for a compose project.");
        reveal_strlit("  Docker, PHP, and release commands for a compose project.");
        assert(page.about@ =~= "  Docker, PHP, and release commands for a compose project."@);
        reveal_strlit("Config lives in");
        reveal_strlit("~/.shellops");
        reveal_strlit("  Config lives in ~/.shellops");
        assert(page.footer@ =~= "  Config lives in ~/.shellops"@);
    }
}

} // verus!
