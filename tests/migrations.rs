use migrate_core::migrator::{
    plan_down, plan_up, AppliedMigration, MigrateError, OutOfOrderPolicy,
};
use migrate_core::name::{format_name, parse_name};
use migrate_core::resolve::{resolve, MigrationSet, SourceFile};
use migrate_core::types::{default_path, Config, MigrationType, ResolveError};
use sha2::Digest;

fn config() -> Config {
    Config {
        migrations_dir: None,
        table_name: None,
        create_schemas: Vec::new(),
        ignored_chars: Vec::new(),
        allow_missing_down: false,
        no_tx_versions: Vec::new(),
    }
}

fn src(name: &str, sql: &str) -> SourceFile {
    SourceFile { name: name.to_string(), sql: sql.to_string() }
}

fn digest(text: &str) -> Vec<u8> {
    sha2::Sha384::digest(text.as_bytes()).to_vec()
}

fn resolved(sources: Vec<SourceFile>) -> MigrationSet {
    resolve(&sources, &config()).unwrap()
}

fn history(set: &MigrationSet, versions: &[i64]) -> Vec<AppliedMigration> {
    versions
        .iter()
        .map(|v| {
            let m = set
                .migrations()
                .iter()
                .find(|m| m.version == *v && m.migration_type.is_up())
                .unwrap();
            AppliedMigration::of(m)
        })
        .collect()
}

fn record(set: &MigrationSet, applied: &mut Vec<AppliedMigration>, steps: &[usize]) {
    for i in steps {
        applied.push(AppliedMigration::of(&set.migrations()[*i]));
    }
}

fn revert(set: &MigrationSet, applied: &mut Vec<AppliedMigration>, steps: &[usize]) {
    for i in steps {
        let v = set.migrations()[*i].version;
        applied.retain(|a| a.version != v);
    }
}

fn sorted_versions(applied: &[AppliedMigration]) -> Vec<(i64, Vec<u8>)> {
    let mut rows: Vec<(i64, Vec<u8>)> =
        applied.iter().map(|a| (a.version, a.checksum.clone())).collect();
    rows.sort();
    rows
}

#[test]
fn format_simple_name() {
    assert_eq!(format_name(1, "create users", MigrationType::Simple), "1_create_users.sql");
    assert_eq!(format_name(20, "x", MigrationType::ReversibleUp), "20_x.up.sql");
    assert_eq!(format_name(0, "x", MigrationType::ReversibleDown), "0_x.down.sql");
}

#[test]
fn name_round_trip() {
    for t in [MigrationType::Simple, MigrationType::ReversibleUp, MigrationType::ReversibleDown] {
        let name = format_name(1234567, "add index on users", t);
        let p = parse_name(&name).unwrap().unwrap();
        assert_eq!(p.version, 1234567);
        assert_eq!(p.description, "add index on users");
        assert_eq!(p.migration_type, t);
    }
}

#[test]
fn parse_kinds() {
    let up = parse_name("3_users.up.sql").unwrap().unwrap();
    assert_eq!(up.migration_type, MigrationType::ReversibleUp);
    assert_eq!(up.description, "users");
    let down = parse_name("3_users.down.sql").unwrap().unwrap();
    assert_eq!(down.migration_type, MigrationType::ReversibleDown);
    let simple = parse_name("007_big_table.sql").unwrap().unwrap();
    assert_eq!(simple.version, 7);
    assert_eq!(simple.description, "big table");
    assert_eq!(simple.migration_type, MigrationType::Simple);
}

#[test]
fn parse_not_migrations() {
    assert!(parse_name("README.md").unwrap().is_none());
    assert!(parse_name("1_notes.txt").unwrap().is_none());
    assert!(parse_name("abc_sql").unwrap().is_none());
}

#[test]
fn parse_bad_version() {
    assert!(matches!(parse_name("x_foo.sql"), Err(ResolveError::InvalidVersion { .. })));
    assert!(matches!(parse_name("nounderscore.sql"), Err(ResolveError::InvalidVersion { .. })));
    assert!(matches!(parse_name("12.sql"), Err(ResolveError::InvalidVersion { .. })));
    assert!(matches!(parse_name("_foo.sql"), Err(ResolveError::InvalidVersion { .. })));
    assert!(matches!(parse_name("-1_foo.sql"), Err(ResolveError::InvalidVersion { .. })));
    assert!(matches!(
        parse_name("9223372036854775808_foo.sql"),
        Err(ResolveError::InvalidVersion { .. })
    ));
    let max = parse_name("9223372036854775807_foo.sql").unwrap().unwrap();
    assert_eq!(max.version, i64::MAX);
}

#[test]
fn parse_missing_description() {
    match parse_name("1_.sql") {
        Err(ResolveError::MissingDescription { name }) => assert_eq!(name, "1_.sql"),
        other => panic!("unexpected {:?}", other),
    }
    assert!(matches!(parse_name("1_.up.sql"), Err(ResolveError::MissingDescription { .. })));
}

#[test]
fn resolve_orders_and_checksums() {
    let set = resolved(vec![
        src("2_add_index.sql", "CREATE INDEX i ON users (id);"),
        src("1_create_users.sql", "CREATE TABLE users (id INT);"),
        src("notes.txt", "ignored"),
    ]);
    let ms = set.migrations();
    assert_eq!(ms.len(), 2);
    assert_eq!(ms[0].version, 1);
    assert_eq!(ms[0].description, "create users");
    assert_eq!(ms[1].version, 2);
    assert_eq!(ms[0].checksum, digest("CREATE TABLE users (id INT);"));
    assert_eq!(ms[0].checksum.len(), 48);
    assert_ne!(ms[0].checksum, ms[0].sql.as_bytes().to_vec());
    assert!(!ms[0].no_tx);
}

#[test]
fn resolve_pairs_up_before_down() {
    let set = resolved(vec![
        src("1_users.down.sql", "DROP TABLE users;"),
        src("1_users.up.sql", "CREATE TABLE users (id INT);"),
    ]);
    let ms = set.migrations();
    assert_eq!(ms[0].migration_type, MigrationType::ReversibleUp);
    assert_eq!(ms[1].migration_type, MigrationType::ReversibleDown);
    assert_eq!(ms[1].checksum, digest("DROP TABLE users;"));
}

#[test]
fn resolve_ignored_chars() {
    let mut cfg = config();
    cfg.ignored_chars = vec!['\r'];
    let a = resolve(&vec![src("1_a.sql", "SELECT 1;\r\nSELECT 2;\r\n")], &cfg).unwrap();
    let b = resolve(&vec![src("1_a.sql", "SELECT 1;\nSELECT 2;\n")], &cfg).unwrap();
    assert_eq!(a.migrations()[0].checksum, b.migrations()[0].checksum);
    assert_eq!(a.migrations()[0].checksum, digest("SELECT 1;\nSELECT 2;\n"));
    assert_eq!(a.migrations()[0].sql, "SELECT 1;\r\nSELECT 2;\r\n");
}

#[test]
fn resolve_no_tx_marker() {
    let set = resolved(vec![
        src("1_a.sql", "-- no-transaction\nCREATE INDEX CONCURRENTLY i ON t (x);"),
        src("2_b.sql", "SELECT 1; -- no-transaction"),
    ]);
    assert!(set.migrations()[0].no_tx);
    assert!(!set.migrations()[1].no_tx);
}

#[test]
fn resolve_duplicate_version() {
    let r = resolve(&vec![src("1_a.sql", "A"), src("1_b.sql", "B")], &config());
    assert!(matches!(r, Err(ResolveError::DuplicateVersion { version: 1 })));
    let r = resolve(&vec![src("4_a.sql", "A"), src("4_b.up.sql", "B"), src("4_b.down.sql", "C")], &config());
    assert!(matches!(r, Err(ResolveError::DuplicateVersion { version: 4 })));
}

#[test]
fn resolve_missing_pair() {
    let r = resolve(&vec![src("1_a.up.sql", "A")], &config());
    assert!(matches!(r, Err(ResolveError::MissingPair { version: 1 })));
    let r = resolve(&vec![src("2_a.down.sql", "A")], &config());
    assert!(matches!(r, Err(ResolveError::MissingPair { version: 2 })));
    let mut cfg = config();
    cfg.allow_missing_down = true;
    assert!(resolve(&vec![src("1_a.up.sql", "A")], &cfg).is_ok());
    assert!(matches!(
        resolve(&vec![src("2_a.down.sql", "A")], &cfg),
        Err(ResolveError::MissingPair { version: 2 })
    ));
}

#[test]
fn resolve_name_without_underscore_fails() {
    match resolve(&vec![src("abc.sql", "A")], &config()) {
        Err(ResolveError::InvalidVersion { name }) => assert_eq!(name, "abc.sql"),
        other => panic!("unexpected {:?}", other.map(|s| s.len())),
    }
}

#[test]
fn resolve_bad_name_fails() {
    let r = resolve(&vec![src("1_a.sql", "A"), src("v2_b.sql", "B")], &config());
    assert!(matches!(r, Err(ResolveError::InvalidVersion { .. })));
}

#[test]
fn resolution_ignores_listing_order() {
    let files = vec![
        src("1_a.up.sql", "CREATE TABLE a (x INT);"),
        src("1_a.down.sql", "DROP TABLE a;"),
        src("2_b.sql", "CREATE TABLE b (x INT);"),
    ];
    let mut reversed = files.clone();
    reversed.reverse();
    let a = resolved(files);
    let b = resolved(reversed);
    assert_eq!(a.len(), b.len());
    for (x, y) in a.migrations().iter().zip(b.migrations().iter()) {
        assert_eq!(x.version, y.version);
        assert_eq!(x.migration_type, y.migration_type);
        assert_eq!(x.checksum, y.checksum);
    }
}

fn two_simple() -> MigrationSet {
    resolved(vec![
        src("1_create_users.sql", "CREATE TABLE users (id INT);"),
        src("2_add_index.sql", "CREATE INDEX i ON users (id);"),
    ])
}

#[test]
fn migrate_up_fresh() {
    let set = two_simple();
    let mut applied = Vec::new();
    let steps = plan_up(&set, &applied, None, OutOfOrderPolicy::Reject).unwrap();
    assert_eq!(steps, vec![0, 1]);
    record(&set, &mut applied, &steps);
    let versions: Vec<i64> = applied.iter().map(|a| a.version).collect();
    assert_eq!(versions, vec![1, 2]);
}

#[test]
fn migrate_up_twice_is_idempotent() {
    let set = two_simple();
    let mut applied = Vec::new();
    let steps = plan_up(&set, &applied, None, OutOfOrderPolicy::Reject).unwrap();
    record(&set, &mut applied, &steps);
    let again = plan_up(&set, &applied, None, OutOfOrderPolicy::Reject).unwrap();
    assert!(again.is_empty());
}

#[test]
fn migrate_up_to_target() {
    let set = two_simple();
    let steps = plan_up(&set, &Vec::new(), Some(1), OutOfOrderPolicy::Reject).unwrap();
    assert_eq!(steps, vec![0]);
}

#[test]
fn migrate_down_reversible() {
    let set = resolved(vec![
        src("1_create_users.up.sql", "CREATE TABLE users (id INT);"),
        src("1_create_users.down.sql", "DROP TABLE users;"),
    ]);
    let mut applied = history(&set, &[1]);
    let steps = plan_down(&set, &applied, 0).unwrap();
    assert_eq!(steps, vec![1]);
    assert_eq!(set.migrations()[1].sql, "DROP TABLE users;");
    revert(&set, &mut applied, &steps);
    assert!(applied.is_empty());
}

#[test]
fn migrate_down_without_script() {
    let set = two_simple();
    let applied = history(&set, &[1, 2]);
    assert_eq!(plan_down(&set, &applied, 1), Err(MigrateError::NoDownScript { version: 2 }));
    assert_eq!(plan_down(&set, &applied, 2), Ok(vec![]));
}

#[test]
fn drift_halts_run() {
    let set = resolved(vec![
        src("1_a.sql", "A"),
        src("2_b.sql", "B changed"),
        src("3_c.sql", "C"),
    ]);
    let applied = vec![
        AppliedMigration { version: 1, checksum: digest("A") },
        AppliedMigration { version: 2, checksum: digest("B") },
    ];
    assert_eq!(
        plan_up(&set, &applied, None, OutOfOrderPolicy::Skip),
        Err(MigrateError::ChecksumMismatch { version: 2 })
    );
    assert_eq!(plan_down(&set, &applied, 0), Err(MigrateError::ChecksumMismatch { version: 2 }));
}

#[test]
fn out_of_order_detected() {
    let set = resolved(vec![src("3_x.sql", "X"), src("5_y.sql", "Y")]);
    let applied = vec![
        AppliedMigration { version: 1, checksum: digest("1") },
        AppliedMigration { version: 2, checksum: digest("2") },
        AppliedMigration { version: 4, checksum: digest("4") },
    ];
    assert_eq!(
        plan_up(&set, &applied, None, OutOfOrderPolicy::Reject),
        Err(MigrateError::OutOfOrder { version: 3 })
    );
    assert_eq!(plan_up(&set, &applied, None, OutOfOrderPolicy::Skip), Ok(vec![1]));
}

#[test]
fn revert_then_reapply_restores_history() {
    let set = resolved(vec![
        src("1_a.up.sql", "CREATE TABLE a (x INT);"),
        src("1_a.down.sql", "DROP TABLE a;"),
        src("2_b.up.sql", "CREATE TABLE b (x INT);"),
        src("2_b.down.sql", "DROP TABLE b;"),
        src("3_c.up.sql", "CREATE TABLE c (x INT);"),
        src("3_c.down.sql", "DROP TABLE c;"),
    ]);
    let mut applied = Vec::new();
    let steps = plan_up(&set, &applied, None, OutOfOrderPolicy::Reject).unwrap();
    assert_eq!(steps, vec![0, 2, 4]);
    record(&set, &mut applied, &steps);
    let before = sorted_versions(&applied);
    let down = plan_down(&set, &applied, 1).unwrap();
    assert_eq!(down, vec![5, 3]);
    revert(&set, &mut applied, &down);
    assert_eq!(applied.len(), 1);
    let up = plan_up(&set, &applied, None, OutOfOrderPolicy::Reject).unwrap();
    record(&set, &mut applied, &up);
    assert_eq!(sorted_versions(&applied), before);
}

#[test]
fn default_locations() {
    let mut cfg = config();
    assert_eq!(default_path(&cfg), "./migrations");
    assert_eq!(cfg.table_name(), "_migrations");
    cfg.migrations_dir = Some("db/migrations".to_string());
    cfg.table_name = Some("app.history".to_string());
    assert_eq!(default_path(&cfg), "db/migrations");
    assert_eq!(cfg.table_name(), "app.history");
}

fn table_entry(version: i64, t: MigrationType, sql: &str) -> migrate_core::types::Migration {
    migrate_core::types::Migration {
        version,
        description: "entry".to_string(),
        migration_type: t,
        checksum: digest(sql),
        sql: sql.to_string(),
        no_tx: false,
    }
}

#[test]
fn embedded_table_validated() {
    let ok = MigrationSet::from_migrations(vec![
        table_entry(1, MigrationType::ReversibleUp, "A"),
        table_entry(1, MigrationType::ReversibleDown, "undo A"),
        table_entry(2, MigrationType::Simple, "B"),
    ]);
    assert_eq!(ok.unwrap().len(), 3);
    let unsorted = MigrationSet::from_migrations(vec![
        table_entry(2, MigrationType::Simple, "B"),
        table_entry(1, MigrationType::Simple, "A"),
    ]);
    assert!(matches!(unsorted, Err(ResolveError::OutOfOrderInput { version: 1 })));
    let dup = MigrationSet::from_migrations(vec![
        table_entry(1, MigrationType::Simple, "A"),
        table_entry(1, MigrationType::ReversibleUp, "B"),
    ]);
    assert!(matches!(dup, Err(ResolveError::DuplicateVersion { version: 1 })));
    let orphan = MigrationSet::from_migrations(vec![
        table_entry(1, MigrationType::Simple, "A"),
        table_entry(1, MigrationType::ReversibleDown, "undo"),
    ]);
    assert!(matches!(orphan, Err(ResolveError::MissingPair { version: 1 })));
}

#[test]
fn resolve_no_tx_from_config() {
    let mut cfg = config();
    cfg.no_tx_versions = vec![2];
    let set = resolve(&vec![src("1_a.sql", "A"), src("2_b.sql", "B")], &cfg).unwrap();
    assert!(!set.migrations()[0].no_tx);
    assert!(set.migrations()[1].no_tx);
}

#[test]
fn resolve_reports_origins() {
    let files = vec![
        src("notes.txt", "x"),
        src("2_b.sql", "B"),
        src("1_a.down.sql", "undo A"),
        src("1_a.up.sql", "A"),
    ];
    let (set, origins) = migrate_core::resolve::resolve_with_origins(&files, &config()).unwrap();
    assert_eq!(set.len(), 3);
    assert_eq!(origins, vec![3, 2, 1]);
}
