//! The configuration store as this crate sees it: rows that were read from
//! the database, and the steps that bring a database up to date.
//!
//! The caller runs the statements and hands over the rows, column by column,
//! as they came back. What a row has to look like is decided here.

use vstd::prelude::*;
use crate::error::Error;
use crate::paths::{join, joined};

verus! {

/// A value of a column, as the database returned it.
#[derive(Debug)]
pub enum SqlValue {
    Null,
    Integer(i64),
    /// A floating point number; its value is of no use here.
    Real,
    Text(String),
    /// Binary data; its value is of no use here.
    Blob,
}

/// A row of the table `config`.
#[derive(Debug)]
pub struct Config {
    pub id: i64,
    pub key: String,
    pub value: Option<String>,
    pub created_at: String,
    pub updated_at: String,
}

/// The row of the table `onboarding`.
#[derive(Debug)]
pub struct OnboardingStatus {
    pub id: i64,
    pub status: String,
    pub current_step: i64,
    pub created_at: String,
    pub updated_at: String,
}

/// A step that brings the database up to date.
#[derive(Debug)]
pub struct Migration {
    pub version: i64,
    pub description: String,
    /// The statements of the step, in the order in which they are to be run.
    pub statements: Vec<String>,
}

/// What a `Config` says.
pub struct ConfigView {
    pub id: i64,
    pub key: Seq<char>,
    pub value: Option<Seq<char>>,
    pub created_at: Seq<char>,
    pub updated_at: Seq<char>,
}

/// What an `OnboardingStatus` says.
pub struct OnboardingStatusView {
    pub id: i64,
    pub status: Seq<char>,
    pub current_step: i64,
    pub created_at: Seq<char>,
    pub updated_at: Seq<char>,
}

/// What a `Migration` says.
pub struct MigrationView {
    pub version: i64,
    pub description: Seq<char>,
    pub statements: Seq<Seq<char>>,
}

impl View for Config {
    type V = ConfigView;

    open spec fn view(&self) -> ConfigView {
        ConfigView {
            id: self.id,
            key: self.key@,
            value: match self.value {
                Some(v) => Some(v@),
                None => None,
            },
            created_at: self.created_at@,
            updated_at: self.updated_at@,
        }
    }
}

impl View for OnboardingStatus {
    type V = OnboardingStatusView;

    open spec fn view(&self) -> OnboardingStatusView {
        OnboardingStatusView {
            id: self.id,
            status: self.status@,
            current_step: self.current_step,
            created_at: self.created_at@,
            updated_at: self.updated_at@,
        }
    }
}

impl View for Migration {
    type V = MigrationView;

    open spec fn view(&self) -> MigrationView {
        MigrationView {
            version: self.version,
            description: self.description@,
            statements: self.statements.deep_view(),
        }
    }
}

/// What each of `configs` says.
pub open spec fn config_views(configs: Seq<Config>) -> Seq<ConfigView> {
    configs.map_values(|c: Config| c@)
}

/// What each of `migrations` says.
pub open spec fn migration_views(migrations: Seq<Migration>) -> Seq<MigrationView> {
    migrations.map_values(|m: Migration| m@)
}

/// The column `i` of `row` holds an integer.
pub open spec fn is_integer_at(row: Seq<SqlValue>, i: int) -> bool {
    0 <= i < row.len() && row[i] is Integer
}

/// The column `i` of `row` holds a text.
pub open spec fn is_text_at(row: Seq<SqlValue>, i: int) -> bool {
    0 <= i < row.len() && row[i] is Text
}

/// The column `i` of `row` holds a text or nothing.
pub open spec fn is_optional_text_at(row: Seq<SqlValue>, i: int) -> bool {
    0 <= i < row.len() && (row[i] is Text || row[i] is Null)
}

/// The text in a column that holds a text or nothing.
pub open spec fn optional_text(value: SqlValue) -> Option<Seq<char>> {
    match value {
        SqlValue::Text(t) => Some(t@),
        _ => None,
    }
}

/// `row` has the columns of the table `config`: an integer, a text, a text
/// or nothing, and two texts.
pub open spec fn is_config_row(row: Seq<SqlValue>) -> bool {
    &&& is_integer_at(row, 0)
    &&& is_text_at(row, 1)
    &&& is_optional_text_at(row, 2)
    &&& is_text_at(row, 3)
    &&& is_text_at(row, 4)
}

/// What a row of the table `config` says.
pub open spec fn config_of(row: Seq<SqlValue>) -> ConfigView {
    ConfigView {
        id: row[0]->Integer_0,
        key: row[1]->Text_0@,
        value: optional_text(row[2]),
        created_at: row[3]->Text_0@,
        updated_at: row[4]->Text_0@,
    }
}

/// `row` has the columns of the table `onboarding`: an integer, a text, an
/// integer and two texts.
pub open spec fn is_onboarding_row(row: Seq<SqlValue>) -> bool {
    &&& is_integer_at(row, 0)
    &&& is_text_at(row, 1)
    &&& is_integer_at(row, 2)
    &&& is_text_at(row, 3)
    &&& is_text_at(row, 4)
}

/// What the row of the table `onboarding` says.
pub open spec fn onboarding_of(row: Seq<SqlValue>) -> OnboardingStatusView {
    OnboardingStatusView {
        id: row[0]->Integer_0,
        status: row[1]->Text_0@,
        current_step: row[2]->Integer_0,
        created_at: row[3]->Text_0@,
        updated_at: row[4]->Text_0@,
    }
}

fn integer_at(row: &Vec<SqlValue>, i: usize) -> (r: Option<i64>)
    ensures
        match r {
            Some(n) => is_integer_at(row@, i as int) && n == row@[i as int]->Integer_0,
            None => !is_integer_at(row@, i as int),
        },
{
    if i >= row.len() {
        return None;
    }
    match &row[i] {
        SqlValue::Integer(n) => Some(*n),
        _ => None,
    }
}

fn text_at(row: &Vec<SqlValue>, i: usize) -> (r: Option<String>)
    ensures
        match r {
            Some(t) => is_text_at(row@, i as int) && t@ == row@[i as int]->Text_0@,
            None => !is_text_at(row@, i as int),
        },
{
    if i >= row.len() {
        return None;
    }
    match &row[i] {
        SqlValue::Text(t) => Some(t.clone()),
        _ => None,
    }
}

fn optional_text_at(row: &Vec<SqlValue>, i: usize) -> (r: Option<Option<String>>)
    ensures
        match r {
            Some(Some(t)) => is_optional_text_at(row@, i as int) && optional_text(row@[i as int])
                == Some(t@),
            Some(None) => is_optional_text_at(row@, i as int) && optional_text(row@[i as int])
                is None,
            None => !is_optional_text_at(row@, i as int),
        },
{
    if i >= row.len() {
        return None;
    }
    match &row[i] {
        SqlValue::Text(t) => Some(Some(t.clone())),
        SqlValue::Null => Some(None),
        _ => None,
    }
}

/// The row of the table `config` that `row` holds, where it has the columns
/// of that table.
pub fn config_from_row(row: &Vec<SqlValue>) -> (r: Option<Config>)
    ensures
        match r {
            Some(config) => is_config_row(row@) && config@ == config_of(row@),
            None => !is_config_row(row@),
        },
{
    let id = integer_at(row, 0)?;
    let key = text_at(row, 1)?;
    let value = optional_text_at(row, 2)?;
    let created_at = text_at(row, 3)?;
    let updated_at = text_at(row, 4)?;
    Some(Config { id, key, value, created_at, updated_at })
}

/// The value of a key of the configuration, given the rows that the query
/// for the column `value` of that key returned: the text in the first row,
/// or none where there is no row or the value is not set. Fails where the
/// column holds anything else.
pub fn get_config(rows: &Vec<Vec<SqlValue>>) -> (r: Result<Option<String>, Error>)
    ensures
        match r {
            Ok(Some(value)) => rows@.len() > 0 && is_optional_text_at(rows@[0]@, 0)
                && optional_text(rows@[0]@[0]) == Some(value@),
            Ok(None) => rows@.len() == 0 || (is_optional_text_at(rows@[0]@, 0) && optional_text(
                rows@[0]@[0],
            ) is None),
            Err(e) => rows@.len() > 0 && !is_optional_text_at(rows@[0]@, 0) && e
                == Error::IoFailure,
        },
{
    if rows.len() == 0 {
        return Ok(None);
    }
    match optional_text_at(&rows[0], 0) {
        Some(value) => Ok(value),
        None => Err(Error::IoFailure),
    }
}

/// Every one of `rows` has the columns of the table `config`.
pub open spec fn are_config_rows(rows: Seq<Vec<SqlValue>>) -> bool {
    forall|i: int| 0 <= i < rows.len() ==> is_config_row(#[trigger] rows[i]@)
}

/// What `rows` of the table `config` say.
pub open spec fn configs_of(rows: Seq<Vec<SqlValue>>) -> Seq<ConfigView> {
    Seq::new(rows.len(), |i: int| config_of(rows[i]@))
}

/// The configuration, given all rows of the table `config`. Fails where a
/// row has not the columns of the table.
pub fn get_all_config(rows: &Vec<Vec<SqlValue>>) -> (r: Result<Vec<Config>, Error>)
    ensures
        match r {
            Ok(configs) => are_config_rows(rows@) && config_views(configs@) == configs_of(rows@),
            Err(e) => !are_config_rows(rows@) && e == Error::IoFailure,
        },
{
    let mut configs: Vec<Config> = Vec::new();
    let mut i: usize = 0;
    while i < rows.len()
        invariant
            i <= rows.len(),
            configs@.len() == i,
            forall|k: int| 0 <= k < i ==> is_config_row(#[trigger] rows@[k]@),
            forall|k: int| 0 <= k < i ==> (#[trigger] configs@[k])@ == config_of(rows@[k]@),
        decreases rows.len() - i,
    {
        match config_from_row(&rows[i]) {
            Some(config) => {
                configs.push(config);
            },
            None => {
                return Err(Error::IoFailure);
            },
        }
        i += 1;
    }
    assert(config_views(configs@) == configs_of(rows@));
    Ok(configs)
}

/// The state of the onboarding, given the rows that the query for it
/// returned. Fails with `NotFound` where there is no row, and with
/// `IoFailure` where the first row has not the columns of the table.
pub fn get_onboarding_status(rows: &Vec<Vec<SqlValue>>) -> (r: Result<OnboardingStatus, Error>)
    ensures
        match r {
            Ok(status) => rows@.len() > 0 && is_onboarding_row(rows@[0]@) && status@
                == onboarding_of(rows@[0]@),
            Err(e) => if rows@.len() == 0 {
                e == Error::NotFound
            } else {
                !is_onboarding_row(rows@[0]@) && e == Error::IoFailure
            },
        },
{
    if rows.len() == 0 {
        return Err(Error::NotFound);
    }
    let row = &rows[0];
    let id = match integer_at(row, 0) {
        Some(id) => id,
        None => {
            return Err(Error::IoFailure);
        },
    };
    let status = match text_at(row, 1) {
        Some(status) => status,
        None => {
            return Err(Error::IoFailure);
        },
    };
    let current_step = match integer_at(row, 2) {
        Some(step) => step,
        None => {
            return Err(Error::IoFailure);
        },
    };
    let created_at = match text_at(row, 3) {
        Some(t) => t,
        None => {
            return Err(Error::IoFailure);
        },
    };
    let updated_at = match text_at(row, 4) {
        Some(t) => t,
        None => {
            return Err(Error::IoFailure);
        },
    };
    Ok(OnboardingStatus { id, status, current_step, created_at, updated_at })
}

/// The path of the database below the directory `data_dir` for application
/// data.
pub fn get_database_path(data_dir: &str) -> (r: String)
    ensures
        r@ == joined(joined(data_dir@, "com.szilarddoro.allein"@), "database.db"@),
{
    let app_dir = join(data_dir, "com.szilarddoro.allein");
    join(app_dir.as_str(), "database.db")
}

/// Switches on the checking of foreign keys.
pub const ENABLE_FOREIGN_KEYS: &'static str = "PRAGMA foreign_keys = ON";

/// Creates the table that records which migrations were applied.
pub const CREATE_MIGRATIONS_TABLE: &'static str = "CREATE TABLE IF NOT EXISTS __migrations (
            version INTEGER PRIMARY KEY,
            description TEXT NOT NULL,
            applied_at DATETIME DEFAULT CURRENT_TIMESTAMP
        )";

/// Creates the table `config`.
pub const CREATE_CONFIG_TABLE: &'static str = "CREATE TABLE IF NOT EXISTS config (
                id INTEGER PRIMARY KEY AUTOINCREMENT,
                key TEXT UNIQUE NOT NULL,
                value TEXT,
                created_at DATETIME DEFAULT CURRENT_TIMESTAMP,
                updated_at DATETIME DEFAULT CURRENT_TIMESTAMP
            )";

/// Records that the table `config` was created.
pub const RECORD_CONFIG_TABLE: &'static str =
    "INSERT INTO __migrations (version, description) VALUES (1, 'create_config_table')";

/// Creates the table `onboarding`.
pub const CREATE_ONBOARDING_TABLE: &'static str = "CREATE TABLE IF NOT EXISTS onboarding (
                id INTEGER PRIMARY KEY CHECK (id = 1),
                status TEXT NOT NULL CHECK (status IN ('not_started', 'in_progress', 'completed', 'skipped')) DEFAULT 'not_started',
                current_step INTEGER DEFAULT 0,
                created_at DATETIME DEFAULT CURRENT_TIMESTAMP,
                updated_at DATETIME DEFAULT CURRENT_TIMESTAMP
            )";

/// Puts the one row into the table `onboarding`.
pub const INSERT_ONBOARDING_ROW: &'static str =
    "INSERT OR IGNORE INTO onboarding (id, status, current_step) VALUES (1, 'not_started', 0)";

/// Records that the table `onboarding` was created.
pub const RECORD_ONBOARDING_TABLE: &'static str =
    "INSERT INTO __migrations (version, description) VALUES (3, 'create_onboarding_table')";

/// Copies the model that was configured to the key for completions.
pub const COPY_COMPLETION_MODEL: &'static str = "INSERT OR IGNORE INTO config (key, value, created_at, updated_at)
             SELECT 'completion_model', value, created_at, updated_at
             FROM config WHERE key = 'ollama_model'";

/// Copies the model that was configured to the key for improvements.
pub const COPY_IMPROVEMENT_MODEL: &'static str = "INSERT OR IGNORE INTO config (key, value, created_at, updated_at)
             SELECT 'improvement_model', value, created_at, updated_at
             FROM config WHERE key = 'ollama_model'";

/// Records that the models were separated.
pub const RECORD_SEPARATE_MODELS: &'static str =
    "INSERT INTO __migrations (version, description) VALUES (4, 'migrate_model_config_to_separate_models')";

/// The migration that creates the table `config`.
pub open spec fn config_table_migration() -> MigrationView {
    MigrationView {
        version: 1,
        description: "create_config_table"@,
        statements: seq![CREATE_CONFIG_TABLE@, RECORD_CONFIG_TABLE@],
    }
}

/// The migration that creates the table `onboarding`.
pub open spec fn onboarding_table_migration() -> MigrationView {
    MigrationView {
        version: 3,
        description: "create_onboarding_table"@,
        statements: seq![
            CREATE_ONBOARDING_TABLE@,
            INSERT_ONBOARDING_ROW@,
            RECORD_ONBOARDING_TABLE@,
        ],
    }
}

/// The migration that gives completions and improvements a model each.
pub open spec fn separate_models_migration() -> MigrationView {
    MigrationView {
        version: 4,
        description: "migrate_model_config_to_separate_models"@,
        statements: seq![COPY_COMPLETION_MODEL@, COPY_IMPROVEMENT_MODEL@, RECORD_SEPARATE_MODELS@],
    }
}

/// `migration`, unless its version is among `applied`.
pub open spec fn unless_applied(migration: MigrationView, applied: Seq<i64>) -> Seq<MigrationView> {
    if applied.contains(migration.version) {
        Seq::empty()
    } else {
        seq![migration]
    }
}

/// The migrations that are still to be run when those of the versions
/// `applied` were run, in the order in which they are to be run.
pub open spec fn pending_migrations(applied: Seq<i64>) -> Seq<MigrationView> {
    unless_applied(config_table_migration(), applied) + unless_applied(
        onboarding_table_migration(),
        applied,
    ) + unless_applied(separate_models_migration(), applied)
}

fn is_applied(applied: &Vec<i64>, version: i64) -> (r: bool)
    ensures
        r == applied@.contains(version),
{
    let mut i: usize = 0;
    while i < applied.len()
        invariant
            i <= applied.len(),
            forall|k: int| 0 <= k < i ==> applied@[k] != version,
        decreases applied.len() - i,
    {
        if applied[i] == version {
            return true;
        }
        i += 1;
    }
    false
}

fn push_unless_applied(
    out: &mut Vec<Migration>,
    applied: &Vec<i64>,
    version: i64,
    description: &str,
    statements: Vec<String>,
)
    ensures
        migration_views(final(out)@) == migration_views(old(out)@) + unless_applied(
            MigrationView {
                version,
                description: description@,
                statements: statements.deep_view(),
            },
            applied@,
        ),
{
    if !is_applied(applied, version) {
        let ghost before = out@;
        let migration = Migration { version, description: description.to_owned(), statements };
        let ghost added = migration@;
        out.push(migration);
        assert(migration_views(out@) == migration_views(before).push(added));
        assert(migration_views(before).push(added) == migration_views(before) + seq![added]);
    } else {
        assert(migration_views(out@) + Seq::<MigrationView>::empty() == migration_views(out@));
    }
}

/// The statements that are run on every start before anything else, in the
/// order in which they are to be run.
pub fn initialize_database() -> (r: Vec<String>)
    ensures
        r.deep_view() == seq![ENABLE_FOREIGN_KEYS@, CREATE_MIGRATIONS_TABLE@],
{
    let r = vec![ENABLE_FOREIGN_KEYS.to_owned(), CREATE_MIGRATIONS_TABLE.to_owned()];
    assert(r.deep_view() == seq![ENABLE_FOREIGN_KEYS@, CREATE_MIGRATIONS_TABLE@]);
    r
}

/// The migrations that are to be run on a database on which those of the
/// versions `applied` were run already, in the order in which they are to be
/// run. Each ends with the statement that records it as applied.
pub fn run_migrations(applied: &Vec<i64>) -> (r: Vec<Migration>)
    ensures
        migration_views(r@) == pending_migrations(applied@),
{
    let mut out: Vec<Migration> = Vec::new();
    assert(migration_views(out@) == Seq::<MigrationView>::empty());
    let first = vec![CREATE_CONFIG_TABLE.to_owned(), RECORD_CONFIG_TABLE.to_owned()];
    assert(first.deep_view() == seq![CREATE_CONFIG_TABLE@, RECORD_CONFIG_TABLE@]);
    push_unless_applied(&mut out, applied, 1, "create_config_table", first);
    let second = vec![
        CREATE_ONBOARDING_TABLE.to_owned(),
        INSERT_ONBOARDING_ROW.to_owned(),
        RECORD_ONBOARDING_TABLE.to_owned(),
    ];
    assert(second.deep_view() == seq![
        CREATE_ONBOARDING_TABLE@,
        INSERT_ONBOARDING_ROW@,
        RECORD_ONBOARDING_TABLE@,
    ]);
    push_unless_applied(&mut out, applied, 3, "create_onboarding_table", second);
    let third = vec![
        COPY_COMPLETION_MODEL.to_owned(),
        COPY_IMPROVEMENT_MODEL.to_owned(),
        RECORD_SEPARATE_MODELS.to_owned(),
    ];
    assert(third.deep_view() == seq![
        COPY_COMPLETION_MODEL@,
        COPY_IMPROVEMENT_MODEL@,
        RECORD_SEPARATE_MODELS@,
    ]);
    push_unless_applied(&mut out, applied, 4, "migrate_model_config_to_separate_models", third);
    assert(Seq::<MigrationView>::empty() + unless_applied(config_table_migration(), applied@)
        == unless_applied(config_table_migration(), applied@));
    out
}

} // verus!
