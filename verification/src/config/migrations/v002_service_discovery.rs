//! V2: the nullable JSON `service_discovery` column on `upstreams`.
use vstd::prelude::*;

use crate::text::{chars_equal, chars_of};

verus! {

/// Turns on foreign key enforcement (SQLite).
pub const SQLITE_FOREIGN_KEYS_SQL: &'static str = "PRAGMA foreign_keys = ON";

/// Adds the column; the same statement for every database.
pub const ADD_SERVICE_DISCOVERY_SQL: &'static str = "ALTER TABLE upstreams ADD COLUMN service_discovery TEXT";

/// V2: add `service_discovery` to the `upstreams` table.
#[derive(Debug, Clone, Copy)]
pub struct V002ServiceDiscovery;

impl V002ServiceDiscovery {
    /// The schema version this migration brings the database to.
    pub fn version(&self) -> (v: i64)
        ensures
            v == 2,
    {
        2
    }

    /// The migration's name.
    pub fn name(&self) -> (n: &'static str)
        ensures
            n@ == "service_discovery"@,
    {
        "service_discovery"
    }

    /// The migration's checksum.
    pub fn checksum(&self) -> (c: &'static str)
        ensures
            c@ == "v002_add_service_discovery_column"@,
    {
        "v002_add_service_discovery_column"
    }

    /// The statements to run, in order: on SQLite foreign keys are turned on
    /// first; then the column is added.
    pub fn statements(&self, db_type: &str) -> (s: Vec<&'static str>)
        ensures
            db_type@ == "sqlite"@ ==> s@.len() == 2 && s@[0]@ == SQLITE_FOREIGN_KEYS_SQL@ && s@[1]@ == ADD_SERVICE_DISCOVERY_SQL@,
            db_type@ != "sqlite"@ ==> s@.len() == 1 && s@[0]@ == ADD_SERVICE_DISCOVERY_SQL@,
    {
        let mut s: Vec<&'static str> = Vec::new();
        if chars_equal(&chars_of(db_type), &chars_of("sqlite")) {
            s.push(SQLITE_FOREIGN_KEYS_SQL);
        }
        s.push(ADD_SERVICE_DISCOVERY_SQL);
        s
    }
}

} // verus!
