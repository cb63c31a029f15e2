//! Migrations of the projection database.

use crate::db::schema::{MIGRATION_V1_SQL, MIGRATION_V2_SQL};
use vstd::prelude::*;

verus! {

/// Latest schema version.
pub const LATEST_SCHEMA_VERSION: u32 = 2;

pub const SET_META_VERSION: &'static str = "UPDATE projection_meta SET schema_version = ?1 WHERE id = 1";

/// A step of the schema: what brings it to a version.
#[derive(Debug, Clone, Copy)]
pub struct Migration {
    pub version: u32,
    pub sql: &'static str,
}

/// The statements that bring the schema to a version.
pub open spec fn migration_text(version: int) -> Seq<char> {
    if version == 1 {
        MIGRATION_V1_SQL@
    } else {
        MIGRATION_V2_SQL@
    }
}

/// Reads the schema version of a database; a number that is no version is none.
pub fn current_schema_version(user_version: i64) -> (r: Option<u32>)
    ensures
        r == if 0 <= user_version <= u32::MAX {
            Some(user_version as u32)
        } else {
            None
        },
{
    if 0 <= user_version && user_version <= 0xffff_ffff {
        Some(user_version as u32)
    } else {
        None
    }
}

/// The version of a database after the pending migrations.
pub open spec fn migrated(current: u32) -> u32 {
    if current < LATEST_SCHEMA_VERSION {
        LATEST_SCHEMA_VERSION
    } else {
        current
    }
}

/// Selects the migrations that a database of a version still needs, in
/// ascending order: those to each later version. Also returns the version that
/// it has then.
pub fn migrate(current: u32) -> (r: (Vec<Migration>, u32))
    ensures
        r.1 == migrated(current),
        r.0.len() == migrated(current) - current,
        forall|i: int|
            0 <= i < r.0.len() ==> (#[trigger] r.0[i]).version == current + i + 1 && r.0[i].sql@
                == migration_text(current + i + 1),
{
    let mut pending: Vec<Migration> = Vec::new();
    let mut version = current;
    if version < 1 {
        pending.push(Migration { version: 1, sql: MIGRATION_V1_SQL });
        version = 1;
    }
    if version < 2 {
        pending.push(Migration { version: 2, sql: MIGRATION_V2_SQL });
        version = 2;
    }
    (pending, version)
}

/// A migrated database needs no further migration.
pub proof fn migration_is_idempotent(current: u32)
    ensures
        migrated(migrated(current)) == migrated(current),
        migrated(current) >= LATEST_SCHEMA_VERSION,
{
}

}
