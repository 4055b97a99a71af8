use terminaltime::db::{get_migrations, MigrationKind, INITIAL_SCHEMA_SQL};

#[test]
fn one_migration_creates_the_initial_tables() {
    let migrations = get_migrations();
    assert_eq!(migrations.len(), 1);
    assert_eq!(migrations[0].version, 1);
    assert_eq!(migrations[0].description, "create_initial_tables");
    assert!(matches!(migrations[0].kind, MigrationKind::Up));
    assert_eq!(migrations[0].sql, INITIAL_SCHEMA_SQL);
}

#[test]
fn schema_has_the_five_tables_and_their_constraints() {
    let sql = INITIAL_SCHEMA_SQL;
    for table in ["projects", "sessions", "pomodoro_settings", "goals", "streaks"] {
        assert!(sql.contains(&format!("CREATE TABLE IF NOT EXISTS {} (", table)));
    }
    assert_eq!(
        sql.matches("FOREIGN KEY (project_id) REFERENCES projects(id) ON DELETE CASCADE").count(),
        2
    );
    assert!(sql.contains("id INTEGER PRIMARY KEY CHECK (id = 1)"));
    assert!(sql.contains("date DATE UNIQUE NOT NULL"));
    assert!(sql.contains("INSERT OR IGNORE INTO pomodoro_settings (id) VALUES (1);"));
    assert!(sql.contains("icon TEXT DEFAULT '\u{1F4C1}'"));
    assert!(sql.starts_with("CREATE TABLE IF NOT EXISTS projects ("));
}
