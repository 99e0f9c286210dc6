use tx_sitter::db::{
    migration_status_of, startup_action, Database, MigrationStatus, StartupAction,
    LATEST_SCHEMA_VERSION,
};

#[test]
fn fresh_store_reports_empty() {
    let db = Database::new();
    assert_eq!(db.migration_status().unwrap(), MigrationStatus::Empty);
}

#[test]
fn version_comparison_covers_every_case() {
    assert_eq!(migration_status_of(0, false, 2), MigrationStatus::Empty);
    assert_eq!(migration_status_of(0, true, 2), MigrationStatus::Empty);
    assert_eq!(migration_status_of(1, true, 2), MigrationStatus::Dirty);
    assert_eq!(migration_status_of(1, false, 2), MigrationStatus::Behind);
    assert_eq!(migration_status_of(2, false, 2), MigrationStatus::Current);
    assert_eq!(migration_status_of(3, false, 2), MigrationStatus::Ahead);
}

#[test]
fn migrating_a_fresh_store_makes_it_current() {
    let mut db = Database::new();
    assert_eq!(db.migration_status().unwrap(), MigrationStatus::Empty);
    db.migrate().unwrap();
    assert_eq!(db.migration_status().unwrap(), MigrationStatus::Current);
    assert_eq!(db.version, LATEST_SCHEMA_VERSION);
}

#[test]
fn startup_refuses_dirty_and_ahead() {
    assert_eq!(startup_action(&MigrationStatus::Dirty), StartupAction::Refuse);
    assert_eq!(startup_action(&MigrationStatus::Ahead), StartupAction::Refuse);
    assert_eq!(startup_action(&MigrationStatus::Empty), StartupAction::MigrateThenStart);
    assert_eq!(startup_action(&MigrationStatus::Behind), StartupAction::MigrateThenStart);
    assert_eq!(startup_action(&MigrationStatus::Current), StartupAction::Start);
}

#[test]
fn behind_store_migrates_to_current() {
    // A store below the binary's newest migration reports Behind and,
    // once migrated, reports Current.
    let mut db = Database::new();
    db.version = 1;
    assert_eq!(db.migration_status().unwrap(), MigrationStatus::Behind);
    db.migrate().unwrap();
    assert_eq!(db.migration_status().unwrap(), MigrationStatus::Current);
}

#[test]
fn dirty_store_is_refused_at_startup() {
    let mut db = Database::new();
    db.version = 1;
    db.dirty = true;
    let status = db.migration_status().unwrap();
    assert_eq!(status, MigrationStatus::Dirty);
    assert_eq!(startup_action(&status), StartupAction::Refuse);
}

#[test]
fn no_transaction_ids_are_recorded() {
    let db = Database::new();
    assert_eq!(db.has_transaction_id().unwrap(), false);
}
