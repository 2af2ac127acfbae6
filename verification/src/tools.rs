//! Small tools: what was detected, dotenv files, keys, random texts, and the list of settings.

use crate::build::plan::{planned, BuildPlan};
use crate::command::Output;
use crate::config::{display_value, Hit, Scope, Visibility};
use crate::number::{decimal, to_decimal};
use crate::project::{join_path, path_in, Project};
use crate::text::{
    alnum, chars_of, filled, glue, glue3, has_prefix, is_alnum, is_space, join, joined, space,
    view_opt, views,
};
use crate::ui::{
    cell_of, cells, grid, panel, row_of, rows_of, table, Cell, CellView, Color, Sheet, SheetView,
    Theme,
};
use vstd::prelude::*;

verus! {

// What was detected.

/// The images of a plan in the order in which they are built.
pub open spec fn order_text(plan: Option<BuildPlan>) -> Seq<char> {
    match plan {
        Some(plan) => joined(planned(plan.services@), ", "@),
        None => ""@,
    }
}

/// The rows that show a project.
pub open spec fn debug_rows(
    project: Project,
    uid: nat,
    gid: nat,
    user: Option<Seq<char>>,
    version: Seq<char>,
    plan: Option<BuildPlan>,
    secrets: bool,
) -> Seq<(Seq<char>, Seq<char>)> {
    seq![
        ("root"@, project.root@),
        ("APP_ENV"@, project.app_env@),
        (
            "mode"@,
            if project.dev {
                "dev"@
            } else {
                "prod"@
            },
        ),
        ("UID"@, decimal(uid)),
        ("GID"@, decimal(gid)),
        (
            "USER"@,
            match user {
                Some(name) => name,
                None => "-"@,
            },
        ),
        ("VERSION"@, version),
        (
            "image prefix"@,
            match plan {
                Some(plan) => plan.prefix@,
                None => ""@,
            },
        ),
        ("build order"@, order_text(plan)),
        (
            "docker secrets"@,
            if secrets {
                "present"@
            } else {
                "absent"@
            },
        ),
    ]
}

/// Rows of a bold blue name and a value.
pub open spec fn named_rows(theme: Theme, rows: Seq<(Seq<char>, Seq<char>)>) -> Seq<
    Seq<CellView>,
> {
    rows.map_values(|row: (Seq<char>, Seq<char>)| row_of(theme, Color::Blue, row.0, row.1))
}

fn order_of(plan: &Option<BuildPlan>) -> (r: String)
    ensures
        r@ == order_text(*plan),
{
    match plan {
        None => "".to_string(),
        Some(plan) => {
            let mut names: Vec<String> = Vec::new();
            let n: usize = plan.services.len();
            let ghost all = planned(plan.services@);
            for i in 0..n
                invariant
                    n == plan.services@.len(),
                    all == planned(plan.services@),
                    views(names@) == all.take(i as int),
            {
                let ghost had = views(names@);
                names.push(plan.services[i].name.clone());
                assert(views(names@) =~= had.push(all[i as int]));
                assert(all.take(i + 1) =~= all.take(i as int).push(all[i as int]));
            }
            assert(all.take(n as int) =~= all);
            join(names.as_slice(), ", ")
        },
    }
}

/// The table that shows a project.
pub fn debug(
    theme: Theme,
    project: &Project,
    uid: u32,
    gid: u32,
    user: Option<String>,
    version: String,
    plan: Option<BuildPlan>,
    secrets: bool,
) -> (r: Sheet)
    ensures
        r@ == (SheetView {
            unicode: theme.unicode,
            styled: theme.color,
            header: seq![],
            rows: named_rows(
                theme,
                debug_rows(
                    *project,
                    uid as nat,
                    gid as nat,
                    view_opt(user),
                    version@,
                    plan,
                    secrets,
                ),
            ),
        }),
{
    let order = order_of(&plan);
    let ghost expected = debug_rows(
        *project,
        uid as nat,
        gid as nat,
        view_opt(user),
        version@,
        plan,
        secrets,
    );
    let prefix = match plan {
        Some(plan) => plan.prefix,
        None => "".to_string(),
    };
    let mode = if project.dev {
        "dev"
    } else {
        "prod"
    };
    let login = match user {
        Some(name) => name,
        None => "-".to_string(),
    };
    let kept = if secrets {
        "present"
    } else {
        "absent"
    };
    let rows: Vec<(&str, String)> = vec![
        ("root", project.root.clone()),
        ("APP_ENV", project.app_env.clone()),
        ("mode", mode.to_string()),
        ("UID", to_decimal(uid as u64)),
        ("GID", to_decimal(gid as u64)),
        ("USER", login),
        ("VERSION", version),
        ("image prefix", prefix),
        ("build order", order),
        ("docker secrets", kept.to_string()),
    ];
    proof {
        assert(rows@.len() == expected.len());
        assert forall|i: int| 0 <= i < rows@.len() implies ((#[trigger] rows@[i]).0@, rows@[i].1@)
            == expected[i] by {}
        assert(rows_of(theme, Color::Blue, rows@) =~= named_rows(theme, expected));
    }
    panel(theme, rows)
}

// Dotenv files.

/// The arguments of `sort` that sort a file in place.
pub fn sort_dotenv(path: &str, is_file: bool) -> (r: Result<Vec<String>, String>)
    ensures
        if is_file {
            r matches Ok(args) && views(args@) == seq!["-b"@, "-o"@, path@, path@]
        } else {
            r matches Err(text) && text@ == path@ + " is not a file"@
        },
{
    if !is_file {
        return Err(glue(path, " is not a file"));
    }
    let args = vec!["-b".to_string(), "-o".to_string(), path.to_string(), path.to_string()];
    assert(views(args@) =~= seq!["-b"@, "-o"@, path@, path@]);
    Ok(args)
}

// Key pairs.

/// The files of a key pair.
#[derive(Debug, Clone, PartialEq, Eq)]
pub struct KeyFiles {
    pub private: String,
    pub public: String,
}

/// What stands between the name of a key and its ending.
pub open spec fn key_suffix(suffix: Option<Seq<char>>) -> Seq<char> {
    match filled(suffix) {
        Some(value) => "-"@ + value,
        None => ""@,
    }
}

/// The files of a key pair in a directory.
pub fn keypair(dir: &str, suffix: Option<String>, is_dir: bool) -> (r: Result<KeyFiles, String>)
    ensures
        if is_dir {
            &&& r matches Ok(files)
            &&& files.private@ == path_in(
                dir@,
                "private"@ + key_suffix(view_opt(suffix)) + ".pem"@,
            )
            &&& files.public@ == path_in(dir@, "public"@ + key_suffix(view_opt(suffix)) + ".pem"@)
        } else {
            r matches Err(text) && text@ == dir@ + " is not a directory"@
        },
{
    if !is_dir {
        return Err(glue(dir, " is not a directory"));
    }
    let tail = match suffix {
        Some(value) => if value.as_str().is_empty() {
            "".to_string()
        } else {
            glue("-", value.as_str())
        },
        None => "".to_string(),
    };
    Ok(
        KeyFiles {
            private: join_path(dir, glue3("private", tail.as_str(), ".pem").as_str()),
            public: join_path(dir, glue3("public", tail.as_str(), ".pem").as_str()),
        },
    )
}

/// The arguments of `openssl` that make a private key.
pub fn genrsa_args(passphrase: &str, private: &str) -> (r: Vec<String>)
    ensures
        views(r@) == seq![
            "genrsa"@,
            "-aes128"@,
            "-passout"@,
            "pass:"@ + passphrase@,
            "-out"@,
            private@,
            "2048"@,
        ],
{
    let args = vec![
        "genrsa".to_string(),
        "-aes128".to_string(),
        "-passout".to_string(),
        glue("pass:", passphrase),
        "-out".to_string(),
        private.to_string(),
        "2048".to_string(),
    ];
    assert(views(args@) =~= seq![
        "genrsa"@,
        "-aes128"@,
        "-passout"@,
        "pass:"@ + passphrase@,
        "-out"@,
        private@,
        "2048"@,
    ]);
    args
}

/// The arguments of `openssl` that write the public key of a private one.
pub fn rsa_args(passphrase: &str, private: &str, public: &str) -> (r: Vec<String>)
    ensures
        views(r@) == seq![
            "rsa"@,
            "-in"@,
            private@,
            "-passin"@,
            "pass:"@ + passphrase@,
            "-pubout"@,
            "-out"@,
            public@,
        ],
{
    let args = vec![
        "rsa".to_string(),
        "-in".to_string(),
        private.to_string(),
        "-passin".to_string(),
        glue("pass:", passphrase),
        "-pubout".to_string(),
        "-out".to_string(),
        public.to_string(),
    ];
    assert(views(args@) =~= seq![
        "rsa"@,
        "-in"@,
        private@,
        "-passin"@,
        "pass:"@ + passphrase@,
        "-pubout"@,
        "-out"@,
        public@,
    ]);
    args
}

/// The lines about a new key pair.
pub fn keypair_lines(dir: &str, passphrase: &str, encryption: &str) -> (r: Vec<String>)
    ensures
        views(r@) == seq![
            "Private and public keys generated in "@ + dir@,
            "Passphrase used: "@ + passphrase@,
            "Random string for encryption key: "@ + encryption@,
        ],
{
    let lines = vec![
        glue("Private and public keys generated in ", dir),
        glue("Passphrase used: ", passphrase),
        glue("Random string for encryption key: ", encryption),
    ];
    assert(views(lines@) =~= seq![
        "Private and public keys generated in "@ + dir@,
        "Passphrase used: "@ + passphrase@,
        "Random string for encryption key: "@ + encryption@,
    ]);
    lines
}

// Random texts.

/// The arguments of `openssl` that make so many random bytes.
pub fn rand_args(length: usize) -> (r: Result<Vec<String>, String>)
    ensures
        if length == 0 {
            r matches Err(text) && text@ == "length must be at least 1"@
        } else {
            r matches Ok(args) && views(args@) == seq!["rand"@, "-base64"@, decimal(length as nat)]
        },
{
    if length == 0 {
        return Err("length must be at least 1".to_string());
    }
    let args = vec!["rand".to_string(), "-base64".to_string(), to_decimal(length as u64)];
    assert(views(args@) =~= seq!["rand"@, "-base64"@, decimal(length as nat)]);
    Ok(args)
}

/// The ASCII letters and digits.
pub open spec fn plain_chars() -> spec_fn(char) -> bool {
    |c: char| is_alnum(c)
}

/// What is no white space.
pub open spec fn solid_chars() -> spec_fn(char) -> bool {
    |c: char| !is_space(c)
}

/// The first so many characters.
pub open spec fn at_most(s: Seq<char>, n: nat) -> Seq<char> {
    if s.len() <= n {
        s
    } else {
        s.take(n as int)
    }
}

/// The line with a random text: the first letters and digits of what `openssl` wrote.
pub fn random_string(stdout: &str, length: usize) -> (r: String)
    ensures
        r@ == "Generated random string: "@ + at_most(
            stdout@.filter(plain_chars()),
            length as nat,
        ),
{
    let cs = chars_of(stdout);
    let n: usize = cs.len();
    let mut out = String::new();
    let mut kept: usize = 0;
    assert(cs@.take(0).filter(plain_chars()) =~= seq![]) by {
        reveal(Seq::filter);
    }
    for i in 0..n
        invariant
            n == cs@.len(),
            kept == out@.len() <= length,
            out@ == at_most(cs@.take(i as int).filter(plain_chars()), length as nat),
    {
        proof {
            reveal(Seq::filter);
            assert(cs@.take(i + 1).drop_last() =~= cs@.take(i as int));
        }
        if alnum(cs[i]) && kept < length {
            out.push(cs[i]);
            kept += 1;
        }
        proof {
            let was = cs@.take(i as int).filter(plain_chars());
            let now = cs@.take(i + 1).filter(plain_chars());
            if is_alnum(cs@[i as int]) {
                assert(now =~= was.push(cs@[i as int]));
            }
            assert(out@ =~= at_most(now, length as nat));
        }
    }
    assert(cs@.take(n as int) =~= cs@);
    glue("Generated random string: ", out.as_str())
}

/// A random text from what `openssl` wrote, without white space.
pub fn openssl_rand(answer: &Output) -> (r: Result<String, String>)
    ensures
        if !answer.ok() {
            r matches Err(text) && text@ == "openssl rand failed"@
        } else if answer.stdout@.filter(solid_chars()).len() == 0 {
            r matches Err(text) && text@ == "openssl rand returned an empty value"@
        } else {
            r matches Ok(text) && text@ == answer.stdout@.filter(solid_chars())
        },
{
    if !answer.success() {
        return Err("openssl rand failed".to_string());
    }
    let cs = chars_of(answer.stdout.as_str());
    let n: usize = cs.len();
    let mut out = String::new();
    assert(cs@.take(0).filter(solid_chars()) =~= seq![]) by {
        reveal(Seq::filter);
    }
    for i in 0..n
        invariant
            n == cs@.len(),
            out@ == cs@.take(i as int).filter(solid_chars()),
    {
        proof {
            reveal(Seq::filter);
            assert(cs@.take(i + 1).drop_last() =~= cs@.take(i as int));
        }
        if !space(cs[i]) {
            out.push(cs[i]);
        }
        assert(out@ =~= cs@.take(i + 1).filter(solid_chars()));
    }
    assert(cs@.take(n as int) =~= cs@);
    if out.as_str().is_empty() {
        return Err("openssl rand returned an empty value".to_string());
    }
    Ok(out)
}

// The list of settings.

/// Where a setting comes from, in a word.
pub open spec fn scope_name(scope: Scope) -> Seq<char> {
    match scope {
        Scope::Project => "project"@,
        Scope::Global => "global"@,
        Scope::Inferred => "default"@,
    }
}

/// A setting in the list: its value is hidden where it is a secret.
pub open spec fn setting_row(theme: Theme, key: Seq<char>, hit: Hit) -> Seq<CellView> {
    seq![
        cell_of(theme, key, Some(Color::Cyan), true),
        CellView { text: scope_name(hit.scope), color: None, bold: false },
        CellView {
            text: if hit.visibility == Visibility::Secret {
                "********"@
            } else {
                hit.value@
            },
            color: None,
            bold: false,
        },
    ]
}

/// The settings in the list.
pub open spec fn setting_rows(theme: Theme, rows: Seq<(String, Hit)>) -> Seq<Seq<CellView>> {
    rows.map_values(|row: (String, Hit)| setting_row(theme, row.0@, row.1))
}

fn row_for(theme: Theme, key: &str, hit: &Hit) -> (r: Vec<Cell>)
    ensures
        cells(r@) == setting_row(theme, key@, *hit),
{
    let scope = match hit.scope {
        Scope::Project => "project",
        Scope::Global => "global",
        Scope::Inferred => "default",
    };
    let row = vec![
        theme.cell(key, Some(Color::Cyan), true),
        Cell { text: scope.to_string(), color: None, bold: false },
        Cell { text: display_value(hit), color: None, bold: false },
    ];
    assert(cells(row@) =~= setting_row(theme, key@, *hit));
    row
}

/// The table of settings.
pub fn config_list(theme: Theme, rows: &[(String, Hit)]) -> (r: Sheet)
    ensures
        r@ == (SheetView {
            unicode: theme.unicode,
            styled: theme.color,
            header: seq![
                cell_of(theme, "key"@, Some(Color::Cyan), true),
                cell_of(theme, "scope"@, Some(Color::Cyan), true),
                cell_of(theme, "value"@, Some(Color::Cyan), true),
            ],
            rows: setting_rows(theme, rows@),
        }),
{
    let mut sheet = table(theme, &["key", "scope", "value"]);
    let ghost header = seq![
        cell_of(theme, "key"@, Some(Color::Cyan), true),
        cell_of(theme, "scope"@, Some(Color::Cyan), true),
        cell_of(theme, "value"@, Some(Color::Cyan), true),
    ];
    assert(cells(sheet.header@) =~= header);
    let n: usize = rows.len();
    let ghost all = setting_rows(theme, rows@);
    assert(all.take(0) =~= seq![]);
    for i in 0..n
        invariant
            n == rows@.len(),
            all == setting_rows(theme, rows@),
            sheet.unicode == theme.unicode,
            sheet.styled == theme.color,
            cells(sheet.header@) == header,
            grid(sheet.rows@) == all.take(i as int),
    {
        let row = row_for(theme, rows[i].0.as_str(), &rows[i].1);
        let ghost had = sheet.rows@;
        sheet.rows.push(row);
        assert(grid(sheet.rows@) =~= grid(had).push(cells(row@)));
        assert(all.take(i + 1) =~= all.take(i as int).push(all[i as int]));
    }
    assert(all.take(n as int) =~= all);
    sheet
}

/// No secret is shown in the list of settings.
pub proof fn law_secrets_are_masked(theme: Theme, rows: Seq<(String, Hit)>, i: int)
    requires
        0 <= i < rows.len(),
        rows[i].1.visibility == Visibility::Secret,
    ensures
        setting_rows(theme, rows)[i][2].text == "********"@,
{
}

// Tools in writing.

/// What was detected is shown by name: the root, the environment and what it means, the user, the
/// version, the images in the order of their builds, and whether there are secrets.
pub proof fn law_detected_values_are_shown_by_name(
    theme: Theme,
    project: &Project,
    uid: u32,
    gid: u32,
    user: Option<String>,
    version: String,
    plan: Option<BuildPlan>,
    secrets: bool,
    r: Sheet,
)
    requires
        call_ensures(debug, (theme, project, uid, gid, user, version, plan, secrets), r),
    ensures
        ({
            let rows = r@.rows;
            &&& rows.len() == 10
            &&& rows[0][0].text == "root"@
                && rows[0][1].text == project.root@
            &&& rows[1][0].text == "APP_ENV"@
                && rows[1][1].text == project.app_env@
            &&& rows[2][0].text == "mode"@
                && rows[2][1].text == if project.dev {
                "dev"@
            } else {
                "prod"@
            }
            &&& rows[3][0].text == "UID"@
                && rows[3][1].text == decimal(uid as nat)
            &&& rows[4][0].text == "GID"@
                && rows[4][1].text == decimal(gid as nat)
            &&& rows[5][0].text == "USER"@
            &&& user matches Some(name) ==> rows[5][1].text == name@
            &&& user is None ==> rows[5][1].text == "-"@
            &&& rows[6][0].text == "VERSION"@
                && rows[6][1].text == version@
            &&& rows[7][0].text == "image prefix"@ && rows[8][0].text == "build order"@
            &&& plan matches Some(plan) ==> rows[7][1].text == plan.prefix@ && rows[8][1].text
                == joined(planned(plan.services@), ", "@)
            &&& plan is None ==> rows[7][1].text.len() == 0
            &&& rows[9][0].text == "docker secrets"@
            &&& rows[9][1].text == if secrets {
                "present"@
            } else {
                "absent"@
            }
        }),
{
    let rows = debug_rows(
        *project,
        uid as nat,
        gid as nat,
        view_opt(user),
        version@,
        plan,
        secrets,
    );
    let shown = named_rows(theme, rows);
    reveal_strlit("");
    assert(r@.rows == shown);
    assert(shown.len() == 10);
    assert(shown[0] == row_of(theme, Color::Blue, rows[0].0, rows[0].1));
    assert(shown[1] == row_of(theme, Color::Blue, rows[1].0, rows[1].1));
    assert(shown[2] == row_of(theme, Color::Blue, rows[2].0, rows[2].1));
    assert(shown[3] == row_of(theme, Color::Blue, rows[3].0, rows[3].1));
    assert(shown[4] == row_of(theme, Color::Blue, rows[4].0, rows[4].1));
    assert(shown[5] == row_of(theme, Color::Blue, rows[5].0, rows[5].1));
    assert(shown[6] == row_of(theme, Color::Blue, rows[6].0, rows[6].1));
    assert(shown[7] == row_of(theme, Color::Blue, rows[7].0, rows[7].1));
    assert(shown[8] == row_of(theme, Color::Blue, rows[8].0, rows[8].1));
    assert(shown[9] == row_of(theme, Color::Blue, rows[9].0, rows[9].1));
}

/// A dotenv file is sorted in place, without regard to leading blanks; what is no file is refused.
pub proof fn law_files_are_sorted_in_place(path: &str, is_file: bool, r: Result<Vec<String>, String>)
    requires
        call_ensures(sort_dotenv, (path, is_file), r),
    ensures
        !is_file ==> (r matches Err(text) && text@ == path@ + " is not a file"@),
        is_file ==> (r matches Ok(args) && views(args@) == seq!["-b"@, "-o"@, path@, path@]),
{
}

/// The two files of a key pair lie in the directory, differ, and have the suffix behind a hyphen
/// where there is one.
pub proof fn law_keys_have_files_of_their_own(
    dir: &str,
    suffix: Option<String>,
    is_dir: bool,
    r: Result<KeyFiles, String>,
)
    requires
        call_ensures(keypair, (dir, suffix, is_dir), r),
    ensures
        !is_dir ==> (r matches Err(text) && text@ == dir@ + " is not a directory"@),
        is_dir ==> (r matches Ok(files) && {
            let bare = suffix is None || suffix->0@.len() == 0;
            &&& bare ==> files.private@ == path_in(dir@, "private.pem"@) && files.public@ == path_in(
                dir@,
                "public.pem"@,
            )
            &&& !bare ==> files.private@ == path_in(dir@, "private-"@ + suffix->0@ + ".pem"@)
                && files.public@ == path_in(dir@, "public-"@ + suffix->0@ + ".pem"@)
        }),
{
    reveal_strlit("");
    reveal_strlit("-");
    reveal_strlit(".pem");
    reveal_strlit("private");
    reveal_strlit("private-");
    reveal_strlit("private.pem");
    reveal_strlit("public");
    reveal_strlit("public-");
    reveal_strlit("public.pem");
    assert("private"@ + ""@ + ".pem"@ =~= "private.pem"@);
    assert("public"@ + ""@ + ".pem"@ =~= "public.pem"@);
    if let Some(text) = suffix {
        assert("private"@ + ("-"@ + text@) + ".pem"@ =~= "private-"@ + text@ + ".pem"@);
        assert("public"@ + ("-"@ + text@) + ".pem"@ =~= "public-"@ + text@ + ".pem"@);
    }
}

/// A private key has 2048 bits and is encrypted with the passphrase that the public key is then
/// read with; what was used is told.
pub proof fn law_keys_share_their_passphrase(
    dir: &str,
    passphrase: &str,
    encryption: &str,
    private: &str,
    public: &str,
    genrsa: Vec<String>,
    rsa: Vec<String>,
    lines: Vec<String>,
)
    requires
        call_ensures(genrsa_args, (passphrase, private), genrsa),
        call_ensures(rsa_args, (passphrase, private, public), rsa),
        call_ensures(keypair_lines, (dir, passphrase, encryption), lines),
    ensures
        views(genrsa@) == seq![
            "genrsa"@,
            "-aes128"@,
            "-passout"@,
            "pass:"@ + passphrase@,
            "-out"@,
            private@,
            "2048"@,
        ],
        views(rsa@) == seq![
            "rsa"@,
            "-in"@,
            private@,
            "-passin"@,
            "pass:"@ + passphrase@,
            "-pubout"@,
            "-out"@,
            public@,
        ],
        views(lines@) == seq![
            "Private and public keys generated in "@ + dir@,
            "Passphrase used: "@ + passphrase@,
            "Random string for encryption key: "@ + encryption@,
        ],
{
}

proof fn lemma_filter_all(s: Seq<char>, keep: spec_fn(char) -> bool, i: int)
    requires
        0 <= i < s.filter(keep).len(),
    ensures
        keep(s.filter(keep)[i]),
        s.contains(s.filter(keep)[i]),
{
    broadcast use vstd::seq_lib::group_filter_ensures;

    assert(s.filter(keep).contains(s.filter(keep)[i]));
    s.lemma_filter_contains_rev(keep, s.filter(keep)[i]);
}

/// A random text has letters and digits alone, and no more of them than were asked for; it has as
/// many as were asked for where there are enough.
pub proof fn law_random_texts_are_letters_and_digits(
    stdout: &str,
    length: usize,
    r: String,
    i: int,
    args: Result<Vec<String>, String>,
)
    requires
        call_ensures(random_string, (stdout, length), r),
        call_ensures(rand_args, (length,), args),
    ensures
        ({
            let head = "Generated random string: "@;
            let text = r@.skip(head.len() as int);
            &&& has_prefix(r@, head)
            &&& text.len() <= length
            &&& 0 <= i < text.len() ==> ('a' <= text[i] <= 'z' || 'A' <= text[i] <= 'Z' || '0'
                <= text[i] <= '9') && stdout@.contains(text[i])
            &&& stdout@.filter(plain_chars()).len() >= length ==> text.len() == length
            &&& (forall|k: int|
                0 <= k < stdout@.len() ==> 'a' <= #[trigger] stdout@[k] <= 'z' || 'A' <= stdout@[k]
                    <= 'Z' || '0' <= stdout@[k] <= '9') ==> text == if stdout@.len() <= length {
                stdout@
            } else {
                stdout@.take(length as int)
            }
        }),
        length == 0 ==> (args matches Err(text) && text@ == "length must be at least 1"@),
        length > 0 ==> (args matches Ok(list) && views(list@) == seq![
            "rand"@,
            "-base64"@,
            decimal(length as nat),
        ]),
{
    let head = "Generated random string: "@;
    let kept = stdout@.filter(plain_chars());
    let text = at_most(kept, length as nat);
    assert(r@.take(head.len() as int) =~= head);
    assert(r@.skip(head.len() as int) =~= text);
    if 0 <= i < text.len() {
        lemma_filter_all(stdout@, plain_chars(), i);
        assert(text[i] == kept[i]);
    }
    if forall|k: int|
        0 <= k < stdout@.len() ==> 'a' <= #[trigger] stdout@[k] <= 'z' || 'A' <= stdout@[k] <= 'Z'
            || '0' <= stdout@[k] <= '9' {
        lemma_filter_keeps(stdout@, plain_chars());
    }
}

/// What is wanted throughout stays as it is.
proof fn lemma_filter_keeps(s: Seq<char>, keep: spec_fn(char) -> bool)
    requires
        forall|k: int| 0 <= k < s.len() ==> keep(#[trigger] s[k]),
    ensures
        s.filter(keep) == s,
    decreases s.len(),
{
    reveal(Seq::filter);
    if s.len() > 0 {
        let first = s.drop_last();
        assert forall|k: int| 0 <= k < first.len() implies keep(#[trigger] first[k]) by {
            assert(first[k] == s[k]);
        }
        lemma_filter_keeps(first, keep);
        assert(keep(s[s.len() - 1]));
        assert(s.filter(keep) =~= s);
    } else {
        assert(s.filter(keep) =~= s);
    }
}

/// What `openssl` makes up is taken without its white space; a failure and an empty answer are
/// told apart.
pub proof fn law_made_up_texts_have_no_white_space(
    answer: &Output,
    r: Result<String, String>,
    i: int,
    body: Seq<char>,
)
    requires
        call_ensures(openssl_rand, (answer,), r),
    ensures
        answer.code == Some(0i32) && answer.stdout@ == body + "\n"@ && body.len() > 0 && (forall|
            k: int,
        |
            0 <= k < body.len() ==> !is_space(#[trigger] body[k])) ==> (r matches Ok(text) && text@
            == body),
        answer.code != Some(0i32) ==> (r matches Err(text) && text@ == "openssl rand failed"@),
        r matches Ok(text) ==> text@.len() > 0 && (0 <= i < text@.len() ==> !is_space(text@[i])
            && answer.stdout@.contains(text@[i])),
        answer.code == Some(0i32) ==> (r matches Err(text) ==> text@
            == "openssl rand returned an empty value"@),
{
    if let Ok(text) = r {
        if 0 <= i < text@.len() {
            lemma_filter_all(answer.stdout@, solid_chars(), i);
        }
    }
    if answer.stdout@ == body + "\n"@ && (forall|k: int|
        0 <= k < body.len() ==> !is_space(#[trigger] body[k])) {
        reveal_strlit("\n");
        reveal(Seq::filter);
        let all = answer.stdout@;
        assert(all.drop_last() =~= body);
        assert(all.last() == '\n');
        lemma_filter_keeps(body, solid_chars());
    }
}

/// The list of settings names the key, where it comes from and its value, which is hidden for a
/// secret and shown for any other.
pub proof fn law_settings_are_listed_in_words(
    theme: Theme,
    rows: &[(String, Hit)],
    r: Sheet,
    i: int,
)
    requires
        call_ensures(config_list, (theme, rows), r),
        0 <= i < rows@.len(),
    ensures
        r@.rows.len() == rows@.len(),
        r@.header.len() == 3,
        r@.rows[i].len() == 3,
        r@.header[0].text == "key"@ && r@.header[1].text == "scope"@ && r@.header[2].text
            == "value"@,
        r@.rows[i][0].text == rows@[i].0@,
        rows@[i].1.scope == Scope::Project ==> r@.rows[i][1].text == "project"@,
        rows@[i].1.scope == Scope::Global ==> r@.rows[i][1].text == "global"@,
        rows@[i].1.scope == Scope::Inferred ==> r@.rows[i][1].text == "default"@,
        rows@[i].1.visibility == Visibility::Secret ==> r@.rows[i][2].text == "********"@,
        rows@[i].1.visibility != Visibility::Secret ==> r@.rows[i][2].text == rows@[i].1.value@,
{
    let all = setting_rows(theme, rows@);
    assert(all[i] == setting_row(theme, rows@[i].0@, rows@[i].1));
}

} // verus!
