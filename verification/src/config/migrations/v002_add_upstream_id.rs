//! V2: the `upstream_id` column on `proxies`, linking proxies to upstreams.
use vstd::prelude::*;

use crate::text::{chars_contain, chars_of, contains_seq};

verus! {

/// The lowercase form of a string (Unicode lowercase mapping).
pub uninterp spec fn lowercase_of(s: Seq<char>) -> Seq<char>;

/// `str::to_lowercase`: the lowercase form of `s`.
#[verifier::external_body]
pub(crate) fn to_lowercase(s: &str) -> (r: String)
    ensures
        r@ == lowercase_of(s@),
{
    s.to_lowercase()
}

/// The statement that adds the column.
pub const ADD_UPSTREAM_ID_SQL: &'static str = "ALTER TABLE proxies ADD COLUMN upstream_id TEXT";

/// A database error says the column is already there: its lowercased message
/// mentions `duplicate` or `already exists`.
pub open spec fn spec_is_duplicate_column_error(message: Seq<char>) -> bool {
    contains_seq(lowercase_of(message), "duplicate"@) || contains_seq(lowercase_of(message), "already exists"@)
}

/// V2: add `upstream_id` to the `proxies` table.
#[derive(Debug, Clone, Copy)]
pub struct V002AddUpstreamId;

impl V002AddUpstreamId {
    /// The schema version this migration brings the database to.
    pub fn version(&self) -> (v: i64)
        ensures
            v == 2,
    {
        2
    }

    /// The migration's name.
    pub fn name(&self) -> (n: &'static str)
        ensures
            n@ == "add_upstream_id"@,
    {
        "add_upstream_id"
    }

    /// The migration's checksum.
    pub fn checksum(&self) -> (c: &'static str)
        ensures
            c@ == "v002_add_upstream_id_e5f6g7h8"@,
    {
        "v002_add_upstream_id_e5f6g7h8"
    }

    /// Whether a failure of [`ADD_UPSTREAM_ID_SQL`] only means that the column
    /// already exists (which counts as success). SQLite says "duplicate column
    /// name", PostgreSQL "already exists", MySQL "Duplicate column name".
    pub fn is_duplicate_column_error(message: &str) -> (r: bool)
        ensures
            r == spec_is_duplicate_column_error(message@),
    {
        let lower = to_lowercase(message);
        let lc = chars_of(lower.as_str());
        chars_contain(&lc, &chars_of("duplicate")) || chars_contain(&lc, &chars_of("already exists"))
    }
}

} // verus!
