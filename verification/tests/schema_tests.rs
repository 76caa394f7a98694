use outlook_email::schema::{columns_to_add, legacy_schema_plan};

fn names(values: &[&str]) -> Vec<String> {
    values.iter().map(|v| v.to_string()).collect()
}

#[test]
fn adds_only_the_missing_columns_in_order() {
    let present = names(&["id", "email", "imap_host"]);
    let wanted = [
        ("imap_host", "ALTER TABLE accounts ADD COLUMN imap_host TEXT DEFAULT ''"),
        ("imap_port", "ALTER TABLE accounts ADD COLUMN imap_port INTEGER NOT NULL DEFAULT 993"),
        ("proxy_url", "ALTER TABLE accounts ADD COLUMN proxy_url TEXT DEFAULT ''"),
    ];
    assert_eq!(
        columns_to_add(&present, &wanted),
        vec![
            "ALTER TABLE accounts ADD COLUMN imap_port INTEGER NOT NULL DEFAULT 993".to_string(),
            "ALTER TABLE accounts ADD COLUMN proxy_url TEXT DEFAULT ''".to_string(),
        ]
    );
    assert!(columns_to_add(&names(&["imap_host", "imap_port", "proxy_url"]), &wanted).is_empty());
}

#[test]
fn legacy_schema_artifacts_are_retired_once() {
    let accounts = names(&["id", "email", "forward_enabled", "forward_last_checked_at"]);
    let groups = names(&["id", "name", "color"]);
    let plan = legacy_schema_plan(&accounts, &groups);
    assert_eq!(plan.statements.len(), 8 + 12 + 3);
    assert_eq!(plan.statements[0], "DROP INDEX IF EXISTS idx_temp_messages_email");
    assert!(plan.statements.contains(&"DROP INDEX IF EXISTS idx_automation_runs_created".to_string()));
    assert!(plan.statements.contains(&"DROP TABLE IF EXISTS retry_queue".to_string()));
    assert!(plan.statements.contains(&"DROP TABLE IF EXISTS automation_runs".to_string()));
    assert!(!plan.statements.iter().any(|s| s.contains("temp_emails")));
    assert_eq!(
        &plan.statements[20..],
        &[
            "ALTER TABLE accounts DROP COLUMN forward_enabled".to_string(),
            "ALTER TABLE accounts DROP COLUMN forward_last_checked_at".to_string(),
            "ALTER TABLE groups DROP COLUMN color".to_string(),
        ]
    );
    assert!(plan.config_keys.contains(&"webdav_url".to_string()));
    assert!(plan.config_keys.contains(&"appearance_theme".to_string()));
    assert_eq!(plan.config_keys.len(), 16);

    let again = legacy_schema_plan(&names(&["id", "email"]), &names(&["id", "name"]));
    assert_eq!(again.statements.len(), 20);
    assert!(!again.statements.iter().any(|s| s.starts_with("ALTER TABLE")));
}
