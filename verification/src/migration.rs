//! The tool that brings settings from files of an old version into the database.

use vstd::prelude::*;

use crate::strings::{cat2, concat, contains_string, flat, opt_view, str_eq, str_views, views};
use crate::types::GitError;

verus! {

/// The first place from `from` on where `name` stands with something behind it, or the length.
pub open spec fn option_at(args: Seq<Seq<char>>, name: Seq<char>, from: int) -> int
    decreases args.len() - from,
{
    if from < 0 || from + 1 >= args.len() {
        args.len() as int
    } else if args[from] == name {
        from
    } else {
        option_at(args, name, from + 1)
    }
}

/// What stands behind an option.
pub open spec fn option_value(args: Seq<Seq<char>>, name: Seq<char>) -> Option<Seq<char>> {
    let at = option_at(args, name, 0);
    if at < args.len() {
        Some(args[at + 1])
    } else {
        None
    }
}

pub fn arg_value(args: &Vec<String>, name: &str) -> (r: Option<String>)
    ensures
        opt_view(r) == option_value(views(args@), name@),
{
    let mut i: usize = 0;
    while args.len() - i > 1
        invariant
            i <= args@.len(),
            option_at(views(args@), name@, 0) == option_at(views(args@), name@, i as int),
        decreases args@.len() - i,
    {
        assert(views(args@)[i as int] == args@[i as int]@);
        assert(views(args@)[i + 1] == args@[i + 1]@);
        if str_eq(args[i].as_str(), name) {
            return Some(args[i + 1].clone());
        }
        i = i + 1;
    }
    None
}

/// What the tool is asked for.
#[derive(Debug, PartialEq, Eq)]
pub struct MigrationArgs {
    pub force: bool,
    pub help: bool,
    pub legacy_dir: Option<String>,
    pub db: Option<String>,
}

pub fn migration_args(args: &Vec<String>) -> (r: MigrationArgs)
    ensures
        r.force == views(args@).contains("--force"@),
        r.help == (views(args@).contains("--help"@) || views(args@).contains("-h"@)),
        opt_view(r.legacy_dir) == option_value(views(args@), "--legacy-dir"@),
        opt_view(r.db) == option_value(views(args@), "--db"@),
{
    MigrationArgs {
        force: contains_string(args, "--force"),
        help: contains_string(args, "--help") || contains_string(args, "-h"),
        legacy_dir: arg_value(args, "--legacy-dir"),
        db: arg_value(args, "--db"),
    }
}

/// Where the settings come from.
#[derive(Debug, PartialEq, Eq)]
pub enum LegacySource {
    Directory(String),
    Default,
}

/// What the tool does.
#[derive(Debug, PartialEq, Eq)]
pub enum MigrationPlan {
    ShowHelp,
    Import { db: String, source: LegacySource },
}

/// What the tool does, given where the database and the old files stand by default.
pub fn migration_plan(args: MigrationArgs, default_db: Option<String>, has_default_source: bool) -> (r:
    Result<MigrationPlan, GitError>)
    ensures
        match r {
            Ok(MigrationPlan::ShowHelp) => args.help,
            Ok(MigrationPlan::Import { db, source }) => {
                &&& !args.help
                &&& Some(db) == if args.db is Some {
                    args.db
                } else {
                    default_db
                }
                &&& match args.legacy_dir {
                    Some(dir) => source == LegacySource::Directory(dir),
                    None => source == LegacySource::Default && has_default_source,
                }
            },
            Err(GitError::Message(text)) => {
                &&& !args.help
                &&& if args.db is None && default_db is None {
                    text@ == "无法定位默认 SQLite 数据库路径"@
                } else {
                    &&& args.legacy_dir is None && !has_default_source
                    &&& text@ == "无法定位旧 JSON 配置目录"@
                }
            },
            Err(_) => false,
        },
{
    if args.help {
        return Ok(MigrationPlan::ShowHelp);
    }
    let db: String = match args.db {
        Some(db) => db,
        None => match default_db {
            Some(db) => db,
            None => {
                return Err(
                    GitError::Message("无法定位默认 SQLite 数据库路径".to_string()),
                );
            },
        },
    };
    match args.legacy_dir {
        Some(dir) => Ok(MigrationPlan::Import { db, source: LegacySource::Directory(dir) }),
        None => if has_default_source {
            Ok(MigrationPlan::Import { db, source: LegacySource::Default })
        } else {
            Err(GitError::Message("无法定位旧 JSON 配置目录".to_string()))
        },
    }
}

/// Whether a database that exists is removed first, and whether what is imported replaces what
/// is there.
pub fn import_mode(db_exists: bool, force: bool) -> (r: (bool, bool))
    ensures
        r == (db_exists && force, force),
{
    (db_exists && force, force)
}

/// Which settings were imported.
#[derive(Clone, Copy, Debug, PartialEq, Eq, Structural)]
pub struct LegacyImportSummary {
    pub session: bool,
    pub diff_encodings: bool,
    pub remote_credentials: bool,
    pub network_proxy: bool,
    pub credentials: bool,
}

pub open spec fn import_word(done: bool) -> &'static str {
    if done {
        "已导入"
    } else {
        "跳过"
    }
}

pub fn imported(value: bool) -> (r: &'static str)
    ensures
        r == import_word(value),
{
    if value {
        "已导入"
    } else {
        "跳过"
    }
}

/// The lines that say what was done.
pub open spec fn summary_texts(db_path: Seq<char>, summary: LegacyImportSummary, force: bool) -> Seq<
    Seq<char>,
> {
    seq![
        "SQLite 数据库："@ + db_path,
        "导入模式："@ + (if force {
            "强制重建"@
        } else {
            "保守导入"@
        }),
        flat(
            seq![
                "导入结果：session="@,
                import_word(summary.session)@,
                " diff_encodings="@,
                import_word(summary.diff_encodings)@,
                " remote_credentials="@,
                import_word(summary.remote_credentials)@,
                " network_proxy="@,
                import_word(summary.network_proxy)@,
                " credentials="@,
                import_word(summary.credentials)@,
            ],
        ),
        "旧 JSON 文件未删除，可按需手动备份或清理。"@,
    ]
}

pub fn summary_lines(db_path: &str, summary: LegacyImportSummary, force: bool) -> (r: Vec<String>)
    ensures
        views(r@) == summary_texts(db_path@, summary, force),
{
    let mut r: Vec<String> = Vec::new();
    r.push(cat2("SQLite 数据库：", db_path));
    let mode: &str = if force {
        "强制重建"
    } else {
        "保守导入"
    };
    r.push(cat2("导入模式：", mode));
    let mut parts: Vec<&str> = Vec::new();
    parts.push("导入结果：session=");
    parts.push(imported(summary.session));
    parts.push(" diff_encodings=");
    parts.push(imported(summary.diff_encodings));
    parts.push(" remote_credentials=");
    parts.push(imported(summary.remote_credentials));
    parts.push(" network_proxy=");
    parts.push(imported(summary.network_proxy));
    parts.push(" credentials=");
    parts.push(imported(summary.credentials));
    let result: String = concat(&parts, 0, parts.len());
    assert(str_views(parts@).subrange(0, parts@.len() as int) =~= seq![
        "导入结果：session="@,
        import_word(summary.session)@,
        " diff_encodings="@,
        import_word(summary.diff_encodings)@,
        " remote_credentials="@,
        import_word(summary.remote_credentials)@,
        " network_proxy="@,
        import_word(summary.network_proxy)@,
        " credentials="@,
        import_word(summary.credentials)@,
    ]);
    r.push(result);
    r.push("旧 JSON 文件未删除，可按需手动备份或清理。".to_string());
    assert(views(r@) =~= summary_texts(db_path@, summary, force));
    r
}

// ---------------------------------------------------------------------------
// Laws
// ---------------------------------------------------------------------------
/// The value of an option is the argument behind its first use that has one behind it, and an
/// option that has none has no value.
pub proof fn lemma_option_value(args: Seq<Seq<char>>, name: Seq<char>, at: int)
    requires
        0 <= at < args.len() - 1,
        args[at] == name,
        forall|i: int| 0 <= i < at ==> #[trigger] args[i] != name,
    ensures
        option_value(args, name) == Some(args[at + 1]),
{
    lemma_option_at(args, name, 0, at);
}

proof fn lemma_option_at(args: Seq<Seq<char>>, name: Seq<char>, from: int, at: int)
    requires
        0 <= from <= at < args.len() - 1,
        args[at] == name,
        forall|i: int| from <= i < at ==> #[trigger] args[i] != name,
    ensures
        option_at(args, name, from) == at,
    decreases at - from,
{
    if from < at {
        assert(args[from] != name);
        lemma_option_at(args, name, from + 1, at);
    }
}

/// Without the option there is no value; at the end of the arguments it has none either.
pub proof fn lemma_no_option_value(args: Seq<Seq<char>>, name: Seq<char>)
    requires
        forall|i: int| 0 <= i < args.len() - 1 ==> #[trigger] args[i] != name,
    ensures
        option_value(args, name) is None,
{
    lemma_no_option_at(args, name, 0);
}

proof fn lemma_no_option_at(args: Seq<Seq<char>>, name: Seq<char>, from: int)
    requires
        0 <= from <= args.len(),
        forall|i: int| 0 <= i < args.len() - 1 ==> #[trigger] args[i] != name,
    ensures
        option_at(args, name, from) == args.len(),
    decreases args.len() - from,
{
    if from + 1 < args.len() {
        assert(args[from] != name);
        lemma_no_option_at(args, name, from + 1);
    }
}

/// What was imported is told apart from what was left as it was.
pub proof fn lemma_import_words_differ()
    ensures
        import_word(true)@ != import_word(false)@,
{
    reveal_strlit("已导入");
    reveal_strlit("跳过");
    assert("已导入"@.len() != "跳过"@.len());
}

/// The summary names the database, how it was imported, and for each part whether it was, in the order
/// of the parts.
pub proof fn lemma_summary(db_path: Seq<char>, summary: LegacyImportSummary, force: bool)
    ensures
        ({
            let lines = summary_texts(db_path, summary, force);
            &&& lines.len() == 4
            &&& db_path.is_suffix_of(lines[0])
            &&& lines[1] == "导入模式："@ + (if force {
                "强制重建"@
            } else {
                "保守导入"@
            })
            &&& lines[2] == "导入结果：session="@ + import_word(summary.session)@
                + " diff_encodings="@ + import_word(summary.diff_encodings)@
                + " remote_credentials="@ + import_word(summary.remote_credentials)@
                + " network_proxy="@ + import_word(summary.network_proxy)@ + " credentials="@
                + import_word(summary.credentials)@
        }),
{
    let first = "SQLite 数据库："@ + db_path;
    assert(first.subrange(first.len() - db_path.len(), first.len() as int) =~= db_path);
    reveal_with_fuel(flat, 12);
    let parts = seq![
        "导入结果：session="@,
        import_word(summary.session)@,
        " diff_encodings="@,
        import_word(summary.diff_encodings)@,
        " remote_credentials="@,
        import_word(summary.remote_credentials)@,
        " network_proxy="@,
        import_word(summary.network_proxy)@,
        " credentials="@,
        import_word(summary.credentials)@,
    ];
    assert(flat(parts) =~= "导入结果：session="@ + import_word(summary.session)@
        + " diff_encodings="@ + import_word(summary.diff_encodings)@ + " remote_credentials="@
        + import_word(summary.remote_credentials)@ + " network_proxy="@ + import_word(
        summary.network_proxy,
    )@ + " credentials="@ + import_word(summary.credentials)@);
}

} // verus!
