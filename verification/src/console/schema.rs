//! What opening the console database does with the schema it finds.

use vstd::prelude::*;

verus! {

/// The schema version this console writes.
pub const SCHEMA_VERSION: u32 = 1;

/// What opening the database does with its schema.
#[derive(Debug, Clone, Copy, PartialEq, Eq, Structural)]
pub enum MigrationStep {
    /// The database was written by a newer console: refuse it.
    RefuseNewer,
    /// The schema is current: nothing to do.
    UpToDate,
    /// An empty database: create the schema.
    Create,
    /// A database from before versioning: keep its registrations, drop its
    /// history, create the schema, and record the lost history as a gap.
    MigrateLegacy,
}

/// The step for a database at `version`, where `legacy` says whether it
/// holds an unversioned registrations table.
pub open spec fn migration_step_of(version: u32, legacy: bool) -> MigrationStep {
    if version > SCHEMA_VERSION {
        MigrationStep::RefuseNewer
    } else if version == SCHEMA_VERSION {
        MigrationStep::UpToDate
    } else if legacy {
        MigrationStep::MigrateLegacy
    } else {
        MigrationStep::Create
    }
}

/// Decides what opening a database at `version` does.
pub fn migration_step(version: u32, legacy: bool) -> (res: MigrationStep)
    ensures
        res == migration_step_of(version, legacy),
{
    if version > SCHEMA_VERSION {
        MigrationStep::RefuseNewer
    } else if version == SCHEMA_VERSION {
        MigrationStep::UpToDate
    } else if legacy {
        MigrationStep::MigrateLegacy
    } else {
        MigrationStep::Create
    }
}

} // verus!
