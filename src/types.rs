//! The data model: migrations, their kinds, and the settings of a project.

use vstd::prelude::*;

verus! {

/// Where migration scripts are looked for when the settings name no directory.
pub const DEFAULT_PATH: &'static str = "./migrations";

/// The history table used when the settings name none.
pub const DEFAULT_TABLE_NAME: &'static str = "_migrations";

/// The kind of a migration script.
#[derive(Clone, Copy, Debug, PartialEq, Eq, Structural)]
pub enum MigrationType {
    /// A forward-only script with no way back.
    Simple,
    /// The forward half of a reversible pair.
    ReversibleUp,
    /// The backward half of a reversible pair.
    ReversibleDown,
}

impl MigrationType {
    /// Whether a script of this kind runs when migrating forward.
    pub open spec fn spec_is_up(self) -> bool {
        !(self is ReversibleDown)
    }

    /// Sort rank among scripts of one version: forward scripts before the backward one.
    pub open spec fn rank(self) -> int {
        if self is ReversibleDown {
            1
        } else {
            0
        }
    }

    /// Whether a script of this kind runs when migrating forward.
    #[verifier::when_used_as_spec(spec_is_up)]
    pub fn is_up(self) -> (r: bool)
        ensures
            r == self.spec_is_up(),
    {
        !matches!(self, MigrationType::ReversibleDown)
    }

    /// Whether this is the backward half of a reversible pair.
    pub fn is_down(self) -> (r: bool)
        ensures
            r == (self is ReversibleDown),
    {
        matches!(self, MigrationType::ReversibleDown)
    }

    /// Whether this is one half of a reversible pair.
    pub fn is_reversible(self) -> (r: bool)
        ensures
            r == !(self is Simple),
    {
        !matches!(self, MigrationType::Simple)
    }
}

/// What a migration is, as mathematical values.
pub struct MigrationView {
    pub version: i64,
    pub description: Seq<char>,
    pub migration_type: MigrationType,
    pub checksum: Seq<u8>,
    pub sql: Seq<char>,
    pub no_tx: bool,
}

impl MigrationView {
    /// `self` sorts strictly before `other`: by version, then forward before backward.
    pub open spec fn key_lt(self, other: MigrationView) -> bool {
        self.version < other.version || (self.version == other.version
            && self.migration_type.rank() < other.migration_type.rank())
    }

    /// `self` and `other` run in the same direction at the same version.
    pub open spec fn same_key(self, other: MigrationView) -> bool {
        self.version == other.version && self.migration_type.rank()
            == other.migration_type.rank()
    }
}

/// One versioned unit of schema change.
#[derive(Clone, Debug)]
pub struct Migration {
    pub version: i64,
    pub description: String,
    pub migration_type: MigrationType,
    /// SHA-384 digest of the script, with the configured ignored characters left out.
    pub checksum: Vec<u8>,
    pub sql: String,
    /// The script must run outside a transaction.
    pub no_tx: bool,
}

impl View for Migration {
    type V = MigrationView;

    open spec fn view(&self) -> MigrationView {
        MigrationView {
            version: self.version,
            description: self.description@,
            migration_type: self.migration_type,
            checksum: self.checksum@,
            sql: self.sql@,
            no_tx: self.no_tx,
        }
    }
}

/// Why a set of migration scripts could not be resolved.
#[derive(Clone, Debug)]
pub enum ResolveError {
    /// A script's name does not start with a non-negative integer version that fits in `i64`.
    InvalidVersion { name: String },
    /// A script's name has nothing between the version and the suffix.
    MissingDescription { name: String },
    /// Two scripts run in the same direction at the same version.
    DuplicateVersion { version: i64 },
    /// A reversible script lacks its other half.
    MissingPair { version: i64 },
    /// A ready-made table of migrations is not in ascending order at this version.
    OutOfOrderInput { version: i64 },
}

/// The settings of a project, as far as migrations are concerned.
#[derive(Clone, Debug)]
pub struct Config {
    /// Directory holding the migration scripts.
    pub migrations_dir: Option<String>,
    /// The history table, possibly schema-qualified.
    pub table_name: Option<String>,
    /// Schemas to create, if absent, before migrating.
    pub create_schemas: Vec<String>,
    /// Characters left out of a script before its checksum is taken.
    pub ignored_chars: Vec<char>,
    /// Whether a forward script of a reversible pair may lack its backward script.
    pub allow_missing_down: bool,
    /// Versions whose scripts run outside a transaction, whatever their text says.
    pub no_tx_versions: Vec<i64>,
}

/// What resolving a script depends on besides the script itself.
pub struct ResolveSettings {
    pub ignored: Seq<char>,
    pub no_tx_versions: Seq<i64>,
}

impl Config {
    pub open spec fn resolve_settings(&self) -> ResolveSettings {
        ResolveSettings { ignored: self.ignored_chars@, no_tx_versions: self.no_tx_versions@ }
    }
}

/// The directory to read migrations from: the configured one, or `./migrations`.
pub fn default_path(config: &Config) -> (r: &str)
    ensures
        config.migrations_dir is Some ==> r@ == config.migrations_dir->Some_0@,
        config.migrations_dir is None ==> r@ == DEFAULT_PATH@,
{
    match &config.migrations_dir {
        Some(dir) => dir.as_str(),
        None => DEFAULT_PATH,
    }
}

impl Config {
    /// The history table: the configured one, or `_migrations`.
    pub fn table_name(&self) -> (r: &str)
        ensures
            self.table_name is Some ==> r@ == self.table_name->Some_0@,
            self.table_name is None ==> r@ == DEFAULT_TABLE_NAME@,
    {
        match &self.table_name {
            Some(name) => name.as_str(),
            None => DEFAULT_TABLE_NAME,
        }
    }
}

} // verus!
