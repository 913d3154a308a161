use allein::database::{
    config_from_row, get_all_config, get_config, get_database_path, get_onboarding_status,
    initialize_database, run_migrations, SqlValue, CREATE_CONFIG_TABLE, RECORD_SEPARATE_MODELS,
};
use allein::error::Error;

fn text(s: &str) -> SqlValue {
    SqlValue::Text(s.to_string())
}

fn config_row(id: i64, key: &str, value: Option<&str>) -> Vec<SqlValue> {
    vec![
        SqlValue::Integer(id),
        text(key),
        match value {
            Some(v) => text(v),
            None => SqlValue::Null,
        },
        text("2024-01-01 00:00:00"),
        text("2024-01-02 00:00:00"),
    ]
}

#[test]
fn rows_of_the_configuration_are_read_column_by_column() {
    let rows = vec![config_row(1, "theme", Some("dark")), config_row(2, "model", None)];
    let configs = get_all_config(&rows).unwrap();
    assert_eq!(configs.len(), 2);
    assert_eq!(configs[0].id, 1);
    assert_eq!(configs[0].key, "theme");
    assert_eq!(configs[0].value.as_deref(), Some("dark"));
    assert_eq!(configs[0].created_at, "2024-01-01 00:00:00");
    assert_eq!(configs[0].updated_at, "2024-01-02 00:00:00");
    assert_eq!(configs[1].id, 2);
    assert_eq!(configs[1].key, "model");
    assert_eq!(configs[1].value, None);
    assert_eq!(get_all_config(&vec![]).map(|c| c.len()), Ok(0));
}

#[test]
fn a_row_with_a_wrong_column_fails_the_whole_configuration() {
    let mut bad = config_row(2, "k", Some("v"));
    bad[1] = SqlValue::Null;
    let rows = vec![config_row(1, "theme", Some("dark")), bad];
    assert_eq!(get_all_config(&rows).map(|c| c.len()), Err(Error::IoFailure));
    assert!(config_from_row(&vec![SqlValue::Integer(1)]).is_none());
    assert!(config_from_row(&vec![]).is_none());
    let mut bad = config_row(1, "k", Some("v"));
    bad[0] = text("1");
    assert!(config_from_row(&bad).is_none());
    let mut bad = config_row(1, "k", Some("v"));
    bad[2] = SqlValue::Integer(7);
    assert!(config_from_row(&bad).is_none());
    let mut bad = config_row(1, "k", Some("v"));
    bad[3] = SqlValue::Real;
    assert!(config_from_row(&bad).is_none());
    let mut bad = config_row(1, "k", Some("v"));
    bad[4] = SqlValue::Blob;
    assert!(config_from_row(&bad).is_none());
    let mut long = config_row(1, "k", Some("v"));
    long.push(SqlValue::Null);
    assert!(config_from_row(&long).is_some());
}

#[test]
fn the_value_of_a_key_is_the_text_of_the_first_row() {
    assert_eq!(get_config(&vec![]), Ok(None));
    assert_eq!(get_config(&vec![vec![SqlValue::Null]]), Ok(None));
    assert_eq!(get_config(&vec![vec![text("/docs")]]), Ok(Some("/docs".to_string())));
    assert_eq!(get_config(&vec![vec![text("a")], vec![text("b")]]), Ok(Some("a".to_string())));
    assert_eq!(get_config(&vec![vec![SqlValue::Integer(1)]]), Err(Error::IoFailure));
    assert_eq!(get_config(&vec![vec![]]), Err(Error::IoFailure));
}

#[test]
fn the_onboarding_status_is_the_first_row() {
    let row = vec![
        SqlValue::Integer(1),
        text("in_progress"),
        SqlValue::Integer(3),
        text("2024-01-01"),
        text("2024-01-02"),
    ];
    let status = get_onboarding_status(&vec![row]).unwrap();
    assert_eq!(status.id, 1);
    assert_eq!(status.status, "in_progress");
    assert_eq!(status.current_step, 3);
    assert_eq!(status.created_at, "2024-01-01");
    assert_eq!(status.updated_at, "2024-01-02");
}

#[test]
fn the_onboarding_status_fails_without_a_row_or_with_a_wrong_one() {
    assert_eq!(get_onboarding_status(&vec![]).map(|s| s.id), Err(Error::NotFound));
    let row = vec![
        SqlValue::Integer(1),
        text("in_progress"),
        SqlValue::Null,
        text("2024-01-01"),
        text("2024-01-02"),
    ];
    assert_eq!(get_onboarding_status(&vec![row]).map(|s| s.id), Err(Error::IoFailure));
    assert_eq!(
        get_onboarding_status(&vec![vec![SqlValue::Integer(1)]]).map(|s| s.id),
        Err(Error::IoFailure)
    );
}

#[test]
fn a_new_database_gets_all_migrations_in_order() {
    let migrations = run_migrations(&vec![]);
    let versions: Vec<i64> = migrations.iter().map(|m| m.version).collect();
    assert_eq!(versions, vec![1, 3, 4]);
    assert_eq!(migrations[0].description, "create_config_table");
    assert_eq!(migrations[1].description, "create_onboarding_table");
    assert_eq!(migrations[2].description, "migrate_model_config_to_separate_models");
    assert_eq!(migrations[0].statements.len(), 2);
    assert_eq!(migrations[1].statements.len(), 3);
    assert_eq!(migrations[2].statements.len(), 3);
    assert_eq!(migrations[0].statements[0], CREATE_CONFIG_TABLE);
    assert_eq!(migrations[2].statements[2], RECORD_SEPARATE_MODELS);
    assert!(migrations[1].statements[1].starts_with("INSERT OR IGNORE INTO onboarding"));
    assert!(migrations[2].statements[0].contains("'completion_model'"));
    assert!(migrations[2].statements[1].contains("'improvement_model'"));
}

#[test]
fn migrations_that_were_applied_are_not_run_again() {
    let versions = |applied: Vec<i64>| -> Vec<i64> {
        run_migrations(&applied).iter().map(|m| m.version).collect()
    };
    assert_eq!(versions(vec![1]), vec![3, 4]);
    assert_eq!(versions(vec![3]), vec![1, 4]);
    assert_eq!(versions(vec![4, 1]), vec![3]);
    assert_eq!(versions(vec![1, 3, 4]), Vec::<i64>::new());
    assert_eq!(versions(vec![2, 5]), vec![1, 3, 4]);
}

#[test]
fn every_start_switches_on_foreign_keys_and_creates_the_migrations_table() {
    let statements = initialize_database();
    assert_eq!(statements.len(), 2);
    assert_eq!(statements[0], "PRAGMA foreign_keys = ON");
    assert!(statements[1].starts_with("CREATE TABLE IF NOT EXISTS __migrations"));
}

#[test]
fn the_database_lies_below_the_data_directory() {
    assert_eq!(
        get_database_path("/home/u/.local/share"),
        "/home/u/.local/share/com.szilarddoro.allein/database.db"
    );
}
